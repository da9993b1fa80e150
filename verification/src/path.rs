//! Paths as Unix writes them: bytes, with `/` between the names.
//!
//! Two paths are the same where they name the same components: a repeated
//! separator, a trailing one and a `.` that is not the first component make no
//! difference.

use crate::text::{from_utf8_lossy, same_bytes};
use vstd::prelude::*;

verus! {

/// The byte between two components.
pub const SEPARATOR: u8 = 0x2f;

/// The byte that the components `.` and `..` are made of.
pub const DOT: u8 = 0x2e;

/// The path of a directory, byte for byte as it was given.
#[derive(Debug)]
pub struct EntryPath {
    pub bytes: Vec<u8>,
}

impl View for EntryPath {
    type V = Seq<u8>;

    open spec fn view(&self) -> Seq<u8> {
        self.bytes@
    }
}

/// What two paths have in common exactly where they are the same path.
#[verifier::ext_equal]
pub struct PathKey {
    pub rooted: bool,
    pub names: Seq<Seq<u8>>,
}

/// Whether the path starts at the root.
pub open spec fn is_absolute(path: Seq<u8>) -> bool {
    path.len() > 0 && path[0] == SEPARATOR
}

/// The stretches between the separators, empty ones included.
pub open spec fn pieces(path: Seq<u8>) -> Seq<Seq<u8>>
    decreases path.len(),
{
    if path.len() == 0 {
        seq![Seq::<u8>::empty()]
    } else {
        let before = pieces(path.drop_last());
        if path.last() == SEPARATOR {
            before.push(Seq::<u8>::empty())
        } else {
            before.drop_last().push(before.last().push(path.last()))
        }
    }
}

/// Whether the piece at `index` is a component of its path.
pub open spec fn is_component(index: int, piece: Seq<u8>) -> bool {
    piece.len() > 0 && (index == 0 || piece != seq![DOT])
}

/// The pieces that are components, in order.
pub open spec fn components(pieces: Seq<Seq<u8>>) -> Seq<Seq<u8>>
    decreases pieces.len(),
{
    if pieces.len() == 0 {
        Seq::empty()
    } else if is_component(pieces.len() - 1, pieces.last()) {
        components(pieces.drop_last()).push(pieces.last())
    } else {
        components(pieces.drop_last())
    }
}

/// The key of a path.
pub open spec fn path_key(path: Seq<u8>) -> PathKey {
    PathKey { rooted: is_absolute(path), names: components(pieces(path)) }
}

/// The last component, where it is the name of an entry: neither `.` nor `..`.
pub open spec fn file_name(path: Seq<u8>) -> Option<Seq<u8>> {
    let names = components(pieces(path));
    if names.len() == 0 || names.last() == seq![DOT] || names.last() == seq![DOT, DOT] {
        None
    } else {
        Some(names.last())
    }
}

/// `path` as seen from the directory `base`.
pub open spec fn resolved(base: Seq<u8>, path: Seq<u8>) -> Seq<u8> {
    if is_absolute(path) {
        path
    } else if base.len() > 0 && base.last() != SEPARATOR {
        base.push(SEPARATOR) + path
    } else {
        base + path
    }
}

/// The pieces written one after the other with a separator between them.
pub open spec fn rejoined(pieces: Seq<Seq<u8>>) -> Seq<u8>
    decreases pieces.len(),
{
    if pieces.len() == 0 {
        Seq::empty()
    } else if pieces.len() == 1 {
        pieces[0]
    } else {
        rejoined(pieces.drop_last()).push(SEPARATOR) + pieces.last()
    }
}

/// Splitting a path loses nothing and splits at every separator: the pieces
/// written with separators between them are the path, and none holds one.
pub proof fn pieces_rejoin(path: Seq<u8>)
    ensures
        pieces(path).len() > 0,
        rejoined(pieces(path)) == path,
        forall|i: int| 0 <= i < pieces(path).len() ==> !(#[trigger] pieces(path)[i]).contains(SEPARATOR),
    decreases path.len(),
{
    if path.len() > 0 {
        let before = pieces(path.drop_last());
        let all = pieces(path);
        pieces_rejoin(path.drop_last());
        if path.last() == SEPARATOR {
            assert(all.drop_last() == before);
            assert(rejoined(all) == path);
            assert forall|i: int| 0 <= i < all.len() implies !(#[trigger] all[i]).contains(SEPARATOR) by {
                if i < before.len() {
                    assert(all[i] == before[i]);
                }
            }
        } else {
            assert(all.drop_last() == before.drop_last());
            let head = rejoined(before.drop_last()).push(SEPARATOR);
            if before.len() > 1 {
                assert(head + before.last() == path.drop_last());
                assert(rejoined(all) == head + before.last().push(path.last()));
                assert(rejoined(all) == (head + before.last()).push(path.last()));
            } else {
                assert(rejoined(all) == path.drop_last().push(path.last()));
            }
            assert(path.drop_last().push(path.last()) == path);
            assert forall|i: int| 0 <= i < all.len() implies !(#[trigger] all[i]).contains(SEPARATOR) by {
                if i < before.len() - 1 {
                    assert(all[i] == before[i]);
                } else {
                    assert(!before[i].contains(SEPARATOR));
                    if all[i].contains(SEPARATOR) {
                        let j = choose|j: int| 0 <= j < all[i].len() && all[i][j] == SEPARATOR;
                        assert(before[i][j] == SEPARATOR);
                    }
                }
            }
        }
    }
}

/// A separator at the end of a path that is not empty names nothing: it changes
/// neither the key of the path nor the name of its entry.
pub proof fn trailing_separator_is_nothing(path: Seq<u8>)
    requires
        path.len() > 0,
    ensures
        path_key(path.push(SEPARATOR)) == path_key(path),
        file_name(path.push(SEPARATOR)) == file_name(path),
{
    assert(path.push(SEPARATOR).drop_last() == path);
    let all = pieces(path.push(SEPARATOR));
    assert(all.drop_last() == pieces(path));
}

/// Seen from a directory, an absolute path is itself, and any other path
/// lies under the directory: it starts with the directory's bytes and ends
/// with its own.
pub proof fn resolved_lies_under(base: Seq<u8>, path: Seq<u8>)
    ensures
        is_absolute(path) ==> resolved(base, path) == path,
        !is_absolute(path) ==> base.is_prefix_of(resolved(base, path)) && path.is_suffix_of(
            resolved(base, path),
        ),
        is_absolute(base) ==> is_absolute(resolved(base, path)),
{
}

/// The components of a path.
fn split(path: &[u8]) -> (names: Vec<Vec<u8>>)
    ensures
        crate::text::byte_views(names@) == components(pieces(path@)),
{
    let mut names: Vec<Vec<u8>> = Vec::new();
    let mut current: Vec<u8> = Vec::new();
    let mut first: bool = true;
    let mut i: usize = 0;
    while i < path.len()
        invariant
            i <= path.len(),
            pieces(path@.take(i as int)).len() > 0,
            current@ == pieces(path@.take(i as int)).last(),
            first == (pieces(path@.take(i as int)).len() == 1),
            crate::text::byte_views(names@) == components(
                pieces(path@.take(i as int)).drop_last(),
            ),
        decreases path.len() - i,
    {
        let ghost before = pieces(path@.take(i as int));
        assert(path@.take(i + 1).drop_last() == path@.take(i as int));
        if path[i] == SEPARATOR {
            assert(pieces(path@.take(i + 1)).drop_last() == before);
            close(&mut names, current, first, Ghost(before));
            current = Vec::new();
            first = false;
        } else {
            assert(pieces(path@.take(i + 1)).drop_last() == before.drop_last());
            current.push(path[i]);
        }
        i = i + 1;
    }
    assert(path@.take(i as int) == path@);
    close(&mut names, current, first, Ghost(pieces(path@)));
    names
}

/// Keeps the last of `all` where it is a component.
fn close(names: &mut Vec<Vec<u8>>, piece: Vec<u8>, first: bool, Ghost(all): Ghost<Seq<Seq<u8>>>)
    requires
        all.len() > 0,
        piece@ == all.last(),
        first == (all.len() == 1),
        crate::text::byte_views(old(names)@) == components(all.drop_last()),
    ensures
        crate::text::byte_views(final(names)@) == components(all),
{
    let is_dot: bool = piece.len() == 1 && piece[0] == DOT;
    assert(is_dot == (piece@ == seq![DOT])) by {
        if is_dot {
            assert(piece@ =~= seq![DOT]);
        }
    }
    if piece.len() > 0 && (first || !is_dot) {
        names.push(piece);
        assert(crate::text::byte_views(names@) == components(all.drop_last()).push(all.last()));
    }
}

impl EntryPath {
    /// The path that `bytes` spell.
    pub fn new(bytes: Vec<u8>) -> (path: Self)
        ensures
            path@ == bytes@,
    {
        EntryPath { bytes }
    }

    /// Whether the path has to be seen from some directory.
    pub fn is_relative(&self) -> (relative: bool)
        ensures
            relative == !is_absolute(self@),
    {
        !(self.bytes.len() > 0 && self.bytes[0] == SEPARATOR)
    }

    /// Goes on to `path`, as seen from this directory.
    pub fn push(&mut self, path: EntryPath)
        ensures
            final(self)@ == resolved(old(self)@, path@),
    {
        let mut path: EntryPath = path;
        if !path.is_relative() {
            self.bytes = path.bytes;
            return;
        }
        let length: usize = self.bytes.len();
        if length > 0 && self.bytes[length - 1] != SEPARATOR {
            self.bytes.push(SEPARATOR);
        }
        self.bytes.append(&mut path.bytes);
    }

    /// The name of the entry that the path leads to.
    pub fn file_name(&self) -> (name: Option<Vec<u8>>)
        ensures
            name is Some == file_name(self@) is Some,
            name matches Some(bytes) ==> Some(bytes@) == file_name(self@),
    {
        let mut names: Vec<Vec<u8>> = split(&self.bytes);
        let ghost views = crate::text::byte_views(names@);
        match names.pop() {
            None => None,
            Some(name) => {
                assert(views.last() == name@);
                let dots: bool = (name.len() == 1 && name[0] == DOT) || (name.len() == 2 && name[0]
                    == DOT && name[1] == DOT);
                assert(dots == (name@ == seq![DOT] || name@ == seq![DOT, DOT])) by {
                    if name.len() == 1 && name@[0] == DOT {
                        assert(name@ =~= seq![DOT]);
                    }
                    if name.len() == 2 && name@[0] == DOT && name@[1] == DOT {
                        assert(name@ =~= seq![DOT, DOT]);
                    }
                }
                if dots {
                    None
                } else {
                    Some(name)
                }
            },
        }
    }

    /// Whether both are the same path.
    pub fn is_same(&self, other: &EntryPath) -> (same: bool)
        ensures
            same == (path_key(self@) == path_key(other@)),
    {
        if self.is_relative() != other.is_relative() {
            return false;
        }
        let left: Vec<Vec<u8>> = split(&self.bytes);
        let right: Vec<Vec<u8>> = split(&other.bytes);
        let ghost lefts = crate::text::byte_views(left@);
        let ghost rights = crate::text::byte_views(right@);
        if left.len() != right.len() {
            assert(lefts.len() != rights.len());
            return false;
        }
        let mut i: usize = 0;
        while i < left.len()
            invariant
                i <= left.len(),
                left.len() == right.len(),
                lefts == crate::text::byte_views(left@),
                rights == crate::text::byte_views(right@),
                path_key(self@).names == lefts,
                path_key(other@).names == rights,
                forall|j: int| 0 <= j < i ==> lefts[j] == rights[j],
            decreases left.len() - i,
        {
            if !same_bytes(&left[i], &right[i]) {
                assert(lefts[i as int] != rights[i as int]);
                return false;
            }
            i = i + 1;
        }
        assert(lefts =~= rights);
        true
    }

    /// The path as text to show.
    pub fn display(&self) -> (text: String)
        ensures
            text@ == crate::text::utf8_lossy(self@),
            vstd::utf8::valid_utf8(self@) ==> text@ == vstd::utf8::decode_utf8(self@),
    {
        from_utf8_lossy(&self.bytes)
    }
}

impl Clone for EntryPath {
    fn clone(&self) -> (copy: Self)
        ensures
            copy@ == self@,
    {
        let bytes: Vec<u8> = self.bytes.clone();
        assert(bytes@ =~= self.bytes@);
        EntryPath { bytes }
    }
}

/// Bytes other than separators lengthen the last piece of a path.
proof fn last_piece_grows(path: Seq<u8>, name: Seq<u8>)
    requires
        !name.contains(SEPARATOR),
    ensures
        pieces(path).len() > 0,
        pieces(path + name) == pieces(path).drop_last().push(pieces(path).last() + name),
    decreases name.len(),
{
    pieces_rejoin(path);
    if name.len() == 0 {
        assert(path + name == path);
        assert(pieces(path).last() + name == pieces(path).last());
        assert(pieces(path).drop_last().push(pieces(path).last()) == pieces(path));
    } else {
        let shorter = name.drop_last();
        assert forall|i: int| 0 <= i < shorter.len() implies shorter[i] != SEPARATOR by {
            assert(name[i] == shorter[i]);
        }
        last_piece_grows(path, shorter);
        assert((path + name).drop_last() == path + shorter);
        assert((path + name).last() == name.last());
        assert(name.contains(name[name.len() - 1]));
        let before = pieces(path + shorter);
        assert(before.drop_last() == pieces(path).drop_last());
        assert(before.last().push(name.last()) == pieces(path).last() + name);
    }
}

/// A path with a further name holds one piece more.
proof fn further_piece(path: Seq<u8>, name: Seq<u8>)
    requires
        !name.contains(SEPARATOR),
    ensures
        pieces(path.push(SEPARATOR) + name) == pieces(path).push(name),
        pieces(path).len() > 0,
{
    let longer = path.push(SEPARATOR);
    pieces_rejoin(path);
    assert(longer.drop_last() == path);
    last_piece_grows(longer, name);
    assert(pieces(longer).drop_last() == pieces(path));
    assert(Seq::<u8>::empty() + name == name);
}

/// The key of a path holds every name in it: one more name behind a separator is
/// one more name in the key, at any depth. Nothing and a `.` there add none. The
/// name of the entry is the last one, unless that is `..`.
pub proof fn further_name_is_kept(path: Seq<u8>, name: Seq<u8>)
    requires
        !name.contains(SEPARATOR),
    ensures
        name.len() > 0 && name != seq![DOT] ==> path_key(path.push(SEPARATOR) + name).names
            == path_key(path).names.push(name),
        name.len() > 0 && name != seq![DOT] ==> file_name(path.push(SEPARATOR) + name) == if name
            == seq![DOT, DOT] {
            None
        } else {
            Some(name)
        },
        name.len() == 0 || name == seq![DOT] ==> path_key(path.push(SEPARATOR) + name).names
            == path_key(path).names && file_name(path.push(SEPARATOR) + name) == file_name(path),
        path_key(path.push(SEPARATOR) + name).rooted == (path.len() == 0 || path[0] == SEPARATOR),
{
    further_piece(path, name);
    assert(pieces(path).push(name).drop_last() == pieces(path));
}

/// The key of a path without a separator is that one name, even where it is `.`;
/// the empty path has no name. Neither starts at the root.
pub proof fn first_name_is_kept(name: Seq<u8>)
    requires
        !name.contains(SEPARATOR),
    ensures
        path_key(name).names == if name.len() == 0 {
            Seq::empty()
        } else {
            seq![name]
        },
        !path_key(name).rooted,
        file_name(name) == if name.len() == 0 || name == seq![DOT] || name == seq![DOT, DOT] {
            None
        } else {
            Some(name)
        },
{
    let empty = Seq::<u8>::empty();
    last_piece_grows(empty, name);
    assert(empty + name == name);
    assert(pieces(empty) == seq![empty]);
    assert(seq![empty].drop_last() == Seq::<Seq<u8>>::empty());
    assert(pieces(name) == seq![name]) by {
        assert(Seq::<Seq<u8>>::empty().push(name) == seq![name]);
    }
    assert(seq![name].drop_last() == Seq::<Seq<u8>>::empty());
    assert(components(Seq::empty()) == Seq::<Seq<u8>>::empty());
    assert(Seq::<Seq<u8>>::empty().push(name) == seq![name]);
    if name.len() > 0 {
        assert(name.contains(name[0]));
    }
}

/// Two entries of one directory are the same path only where they have the same
/// name, and an entry is never the same path as its directory.
pub proof fn entries_of_a_directory_differ(path: Seq<u8>, left: Seq<u8>, right: Seq<u8>)
    requires
        left.len() > 0 && left != seq![DOT] && !left.contains(SEPARATOR),
        right.len() > 0 && right != seq![DOT] && !right.contains(SEPARATOR),
    ensures
        path_key(path.push(SEPARATOR) + left) == path_key(path.push(SEPARATOR) + right) <==> left
            == right,
        path_key(path.push(SEPARATOR) + left) != path_key(path),
{
    further_name_is_kept(path, left);
    further_name_is_kept(path, right);
    let names = path_key(path).names;
    assert(names.push(left).last() == left);
    assert(names.push(right).last() == right);
    assert(names.push(left).len() == names.len() + 1);
}

/// A path starts at the root exactly where it starts with a separator, and this
/// is part of its key.
pub proof fn rooted_paths_start_with_separator(path: Seq<u8>, byte: u8)
    ensures
        !is_absolute(Seq::empty()),
        is_absolute(seq![byte] + path) == (byte == SEPARATOR),
        path_key(seq![byte] + path).rooted == (byte == SEPARATOR),
{
}

/// Seen from a directory, a path that does not start at the root is what the
/// directory's path spells, then what its own spells, with one separator more
/// exactly where the directory's path is not empty and ends in none.
pub proof fn resolved_adds_one_separator(base: Seq<u8>, path: Seq<u8>)
    requires
        path.len() == 0 || path[0] != SEPARATOR,
    ensures
        ({
            let whole = resolved(base, path);
            let apart = base.len() > 0 && base[base.len() - 1] != SEPARATOR;
            &&& whole.len() == base.len() + path.len() + if apart {
                1int
            } else {
                0int
            }
            &&& forall|i: int| 0 <= i < base.len() ==> #[trigger] whole[i] == base[i]
            &&& apart ==> whole[base.len() as int] == SEPARATOR
            &&& forall|i: int|
                0 <= i < path.len() ==> #[trigger] path[i] == whole[whole.len() - path.len() + i]
        }),
{
}

/// The names of a path that is seen from a directory are those of the directory
/// and then its own, for a single name.
pub proof fn resolved_name_lies_in_directory(base: Seq<u8>, name: Seq<u8>)
    requires
        base.len() > 0,
        name.len() > 0 && name != seq![DOT] && !name.contains(SEPARATOR),
    ensures
        path_key(resolved(base, name)).names == path_key(base).names.push(name),
        path_key(resolved(base, name)).rooted == path_key(base).rooted,
{
    assert(name.contains(name[0]));
    if base.last() == SEPARATOR {
        let shorter = base.drop_last();
        assert(shorter.push(SEPARATOR) == base);
        further_name_is_kept(shorter, name);
        further_name_is_kept(shorter, Seq::empty());
        assert(base + Seq::<u8>::empty() == base);
    } else {
        further_name_is_kept(base, name);
    }
}

} // verus!
