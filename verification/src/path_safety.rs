//! Keeping a path that a user gave within a directory.
use vstd::prelude::*;

use crate::parse::{split, split_spec};
use crate::text::{chars_of, own, str_eq, take_chars, text_views};

verus! {

/// Why a path is refused.
#[derive(Clone, Copy, Debug, PartialEq, Eq, Structural)]
pub enum PathRejection {
    /// The path begins at the root of the file system.
    Absolute,
    /// The path goes up, or names nothing.
    Traversal,
    /// The path leads out of the directory.
    Escapes,
    /// The directory, or the one that the path names, cannot be reached.
    RootUnavailable,
}

/// Whether a path begins at the root of the file system.
pub open spec fn is_absolute(path: Seq<char>) -> bool {
    path.len() > 0 && path[0] == '/'
}

/// Whether a path goes up anywhere.
pub open spec fn goes_up(path: Seq<char>) -> bool {
    exists|i: int|
        0 <= i < split_spec(path, '/').len() && #[trigger] split_spec(path, '/')[i] == ".."@
}

/// Whether a piece of a path names something: it is neither empty nor the place itself.
pub open spec fn names_something(piece: Seq<char>) -> bool {
    piece.len() > 0 && piece != "."@
}

/// The pieces of a path that name something.
pub open spec fn naming_pieces(pieces: Seq<Seq<char>>) -> Seq<Seq<char>>
    decreases pieces.len(),
{
    if pieces.len() == 0 {
        pieces
    } else {
        let rest = naming_pieces(pieces.drop_last());
        if names_something(pieces.last()) {
            rest.push(pieces.last())
        } else {
            rest
        }
    }
}

/// The names that a path goes through.
pub open spec fn path_names(path: Seq<char>) -> Seq<Seq<char>> {
    naming_pieces(split_spec(path, '/'))
}

/// Whether the place `path` is the directory `root` or lies within it.
pub open spec fn is_within(root: Seq<Seq<char>>, path: Seq<Seq<char>>) -> bool {
    root.len() <= path.len() && path.take(root.len() as int) == root
}

/// What is refused of a path by its text alone.
pub open spec fn text_rejection(path: Seq<char>) -> Option<PathRejection> {
    if is_absolute(path) {
        Some(PathRejection::Absolute)
    } else if goes_up(path) {
        Some(PathRejection::Traversal)
    } else {
        None
    }
}

/// The place that a path leads to, or why it is refused.
///
/// `root` is where the directory really is, `target` where the path in it really leads, and
/// `parent` where the directory of the path's last name really is; each is absent where it cannot
/// be reached.
pub open spec fn resolved(
    root: Option<Seq<Seq<char>>>,
    path: Seq<char>,
    target: Option<Seq<Seq<char>>>,
    parent: Option<Seq<Seq<char>>>,
) -> Result<Seq<Seq<char>>, PathRejection> {
    match text_rejection(path) {
        Some(rejection) => Err(rejection),
        None => match root {
            None => Err(PathRejection::RootUnavailable),
            Some(root) => match target {
                Some(target) => if is_within(root, target) {
                    Ok(target)
                } else {
                    Err(PathRejection::Escapes)
                },
                None => {
                    let names = root + path_names(path);
                    if names.len() == 0 {
                        Err(PathRejection::Traversal)
                    } else {
                        match parent {
                            None => Err(PathRejection::RootUnavailable),
                            Some(parent) => if is_within(root, parent) {
                                Ok(parent.push(names.last()))
                            } else {
                                Err(PathRejection::Escapes)
                            },
                        }
                    }
                },
            },
        },
    }
}

/// A place as a mathematical value, where it is known.
pub open spec fn place_view(place: Option<&Vec<String>>) -> Option<Seq<Seq<char>>> {
    match place {
        Some(names) => Some(text_views(names@)),
        None => None,
    }
}

/// The names that a path goes through, or why it is refused by its text alone. Nothing of the file
/// system has to be read for this, and nothing should before it.
pub fn check_user_path(path: &str) -> (names: Result<Vec<String>, PathRejection>)
    ensures
        match names {
            Ok(names) => text_rejection(path@) is None && text_views(names@) == path_names(path@),
            Err(rejection) => text_rejection(path@) == Some(rejection),
        },
{
    if path.unicode_len() > 0 && path.get_char(0) == '/' {
        return Err(PathRejection::Absolute);
    }
    let pieces: Vec<String> = split(path, '/');
    let ghost views = text_views(pieces@);
    let mut names: Vec<String> = Vec::new();
    let mut i: usize = 0;
    assert(text_views(names@) =~= naming_pieces(views.take(0)));
    while i < pieces.len()
        invariant
            i <= pieces.len(),
            !is_absolute(path@),
            views == text_views(pieces@),
            views == split_spec(path@, '/'),
            forall|k: int| 0 <= k < i ==> views[k] != ".."@,
            text_views(names@) == naming_pieces(views.take(i as int)),
        decreases pieces.len() - i,
    {
        assert(views.take(i + 1).drop_last() =~= views.take(i as int));
        assert(views[i as int] == pieces@[i as int]@);
        let piece: &str = pieces[i].as_str();
        if str_eq(piece, "..") {
            assert(split_spec(path@, '/')[i as int] == ".."@);
            assert(goes_up(path@));
            return Err(PathRejection::Traversal);
        }
        if piece.unicode_len() > 0 && !str_eq(piece, ".") {
            let ghost before = names@;
            names.push(own(piece));
            assert(text_views(names@) =~= text_views(before).push(piece@));
        }
        i = i + 1;
    }
    assert(views.take(views.len() as int) =~= views);
    assert(!goes_up(path@));
    Ok(names)
}

fn copy_names(names: &Vec<String>) -> (copy: Vec<String>)
    ensures
        text_views(copy@) == text_views(names@),
{
    let mut copy: Vec<String> = Vec::new();
    let mut i: usize = 0;
    while i < names.len()
        invariant
            i <= names.len(),
            text_views(copy@) =~= text_views(names@.take(i as int)),
        decreases names.len() - i,
    {
        let ghost before = text_views(copy@);
        let name: String = own(names[i].as_str());
        copy.push(name);
        assert(text_views(copy@) =~= before.push(name@));
        assert(text_views(names@.take(i + 1)) =~= text_views(names@.take(i as int)).push(name@));
        i = i + 1;
    }
    assert(names@.take(names@.len() as int) =~= names@);
    copy
}

fn lies_within(root: &Vec<String>, path: &Vec<String>) -> (yes: bool)
    ensures
        yes == is_within(text_views(root@), text_views(path@)),
{
    let ghost outer = text_views(root@);
    let ghost inner = text_views(path@);
    if root.len() > path.len() {
        return false;
    }
    let mut i: usize = 0;
    while i < root.len()
        invariant
            i <= root.len() <= path.len(),
            outer == text_views(root@),
            inner == text_views(path@),
            forall|k: int| 0 <= k < i ==> outer[k] == inner[k],
        decreases root.len() - i,
    {
        if !str_eq(root[i].as_str(), path[i].as_str()) {
            assert(outer[i as int] != inner.take(outer.len() as int)[i as int]);
            return false;
        }
        assert(outer[i as int] == inner[i as int]);
        i = i + 1;
    }
    assert(inner.take(outer.len() as int) =~= outer);
    true
}

/// The place that a path leads to within a directory, or why it is refused.
///
/// The path may name something that is not there yet; its directory has to be. What a link leads
/// to counts, not what it is called.
pub fn resolve_within(
    root: Option<&Vec<String>>,
    user_path: &str,
    target: Option<&Vec<String>>,
    parent: Option<&Vec<String>>,
) -> (place: Result<Vec<String>, PathRejection>)
    ensures
        match place {
            Ok(names) => resolved(
                place_view(root),
                user_path@,
                place_view(target),
                place_view(parent),
            ) == Ok::<Seq<Seq<char>>, PathRejection>(text_views(names@)),
            Err(rejection) => resolved(
                place_view(root),
                user_path@,
                place_view(target),
                place_view(parent),
            ) == Err::<Seq<Seq<char>>, PathRejection>(rejection),
        },
{
    let names: Vec<String> = match check_user_path(user_path) {
        Ok(names) => names,
        Err(rejection) => {
            return Err(rejection);
        },
    };
    let root: &Vec<String> = match root {
        Some(root) => root,
        None => {
            return Err(PathRejection::RootUnavailable);
        },
    };
    match target {
        Some(target) => {
            return if lies_within(root, target) {
                Ok(copy_names(target))
            } else {
                Err(PathRejection::Escapes)
            };
        },
        None => {},
    }
    let ghost all = text_views(root@) + text_views(names@);
    let last: String = if names.len() > 0 {
        own(names[names.len() - 1].as_str())
    } else if root.len() > 0 {
        own(root[root.len() - 1].as_str())
    } else {
        return Err(PathRejection::Traversal);
    };
    assert(last@ == all.last());
    match parent {
        None => Err(PathRejection::RootUnavailable),
        Some(parent) => if lies_within(root, parent) {
            let mut place: Vec<String> = copy_names(parent);
            let ghost before = place@;
            place.push(last);
            assert(text_views(place@) =~= text_views(before).push(last@));
            Ok(place)
        } else {
            Err(PathRejection::Escapes)
        },
    }
}

/// Whatever the file system looks like, a path that is let through leads to a place within the
/// directory.
pub proof fn law_nothing_outside_is_reached(
    root: Seq<Seq<char>>,
    path: Seq<char>,
    target: Option<Seq<Seq<char>>>,
    parent: Option<Seq<Seq<char>>>,
    place: Seq<Seq<char>>,
)
    requires
        resolved(Some(root), path, target, parent) == Ok::<Seq<Seq<char>>, PathRejection>(place),
    ensures
        is_within(root, place),
{
    if target is None {
        let held = parent->0;
        assert(place.take(root.len() as int) =~= held.take(root.len() as int));
    }
}

/// A path that goes up, and one that begins at the root of the file system, is refused before
/// anything is looked at.
pub proof fn law_a_bad_text_is_refused_everywhere(
    root: Option<Seq<Seq<char>>>,
    path: Seq<char>,
    target: Option<Seq<Seq<char>>>,
    parent: Option<Seq<Seq<char>>>,
)
    requires
        is_absolute(path) || goes_up(path),
    ensures
        resolved(root, path, target, parent) == (if is_absolute(path) {
            Err::<Seq<Seq<char>>, PathRejection>(PathRejection::Absolute)
        } else {
            Err(PathRejection::Traversal)
        }),
{
}

/// The name of the file that a path leads to; a path that ends by going up has none.
pub open spec fn file_name(path: Seq<char>) -> Option<Seq<char>> {
    let names = path_names(path);
    if names.len() == 0 || names.last() == ".."@ {
        None
    } else {
        Some(names.last())
    }
}

/// The position of the last dot of a name; a name without one has a negative one.
pub open spec fn last_dot(name: Seq<char>) -> int
    decreases name.len(),
{
    if name.len() == 0 {
        -1
    } else if name.last() == '.' {
        name.len() - 1
    } else {
        last_dot(name.drop_last())
    }
}

/// A file name without its extension. A dot at its beginning begins none.
pub open spec fn name_stem(name: Seq<char>) -> Seq<char> {
    if last_dot(name) <= 0 {
        name
    } else {
        name.take(last_dot(name))
    }
}

/// The name of the file that a path leads to, without its extension; empty where there is no name.
pub open spec fn path_stem(path: Seq<char>) -> Seq<char> {
    match file_name(path) {
        Some(name) => name_stem(name),
        None => Seq::empty(),
    }
}

fn stem_of_name(name: &str) -> (stem: String)
    ensures
        stem@ == name_stem(name@),
{
    let chars: Vec<char> = chars_of(name);
    let mut at: usize = chars.len();
    assert(name@.take(at as int) =~= name@);
    while at > 0 && chars[at - 1] != '.'
        invariant
            at <= chars.len(),
            chars@ == name@,
            last_dot(name@) == last_dot(name@.take(at as int)),
        decreases at,
    {
        assert(name@.take(at as int).drop_last() =~= name@.take(at - 1));
        at = at - 1;
    }
    if at <= 1 {
        own(name)
    } else {
        take_chars(name, at - 1)
    }
}

/// The name of the file that a path leads to, without its extension; empty where there is no name.
pub fn filename_stem(path: &str) -> (stem: String)
    ensures
        stem@ == path_stem(path@),
{
    proof {
        reveal_strlit("");
    }
    let pieces: Vec<String> = split(path, '/');
    let ghost views = text_views(pieces@);
    let mut name: Option<usize> = None;
    let mut i: usize = 0;
    while i < pieces.len()
        invariant
            i <= pieces.len(),
            views == text_views(pieces@),
            match name {
                Some(k) => k < i && naming_pieces(views.take(i as int)).len() > 0 && naming_pieces(
                    views.take(i as int),
                ).last() == views[k as int],
                None => naming_pieces(views.take(i as int)).len() == 0,
            },
        decreases pieces.len() - i,
    {
        assert(views.take(i + 1).drop_last() =~= views.take(i as int));
        assert(views[i as int] == pieces@[i as int]@);
        let piece: &str = pieces[i].as_str();
        if piece.unicode_len() > 0 && !str_eq(piece, ".") {
            name = Some(i);
        }
        i = i + 1;
    }
    assert(views.take(views.len() as int) =~= views);
    match name {
        Some(k) => {
            assert(views[k as int] == pieces@[k as int]@);
            if str_eq(pieces[k].as_str(), "..") {
                own("")
            } else {
                stem_of_name(pieces[k].as_str())
            }
        },
        None => own(""),
    }
}

} // verus!
