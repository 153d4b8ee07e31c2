//! Path normalization and the way up.

use vstd::prelude::*;
use crate::model::{is_dotdot, FsState, ROOT, ROOT_SENTINEL};
use crate::path::{is_name, keep_names, lemma_split_nonempty, path_components, split_path};
use crate::utils::MemFSErrType;

verus! {

/// A piece without a slash is the only piece of itself.
pub proof fn lemma_split_of_piece(piece: Seq<char>)
    requires
        forall|i: int| 0 <= i < piece.len() ==> piece[i] != '/',
    ensures
        split_path(piece) == seq![piece],
    decreases piece.len(),
{
    if piece.len() == 0 {
        assert(piece =~= Seq::<char>::empty());
    } else {
        lemma_split_of_piece(piece.drop_last());
        let before = split_path(piece.drop_last());
        assert(before.drop_last() =~= Seq::<Seq<char>>::empty());
        assert(before.last().push(piece.last()) =~= piece);
        assert(before.drop_last().push(piece) =~= seq![piece]);
    }
}

/// The pieces of two paths joined by a slash are the pieces of the first
/// and then those of the second.
pub proof fn lemma_split_of_joined(a: Seq<char>, b: Seq<char>)
    ensures
        split_path(a + seq!['/'] + b) == split_path(a) + split_path(b),
    decreases b.len(),
{
    let joined = a + seq!['/'] + b;
    if b.len() == 0 {
        assert(joined.drop_last() =~= a);
        assert(split_path(b) =~= seq![Seq::<char>::empty()]);
        assert(split_path(a).push(Seq::<char>::empty()) =~= split_path(a) + split_path(b));
    } else {
        lemma_split_of_joined(a, b.drop_last());
        lemma_split_nonempty(b.drop_last());
        assert(joined.drop_last() =~= a + seq!['/'] + b.drop_last());
        assert(joined.last() == b.last());
        let head = split_path(a);
        let tail = split_path(b.drop_last());
        let before = head + tail;
        if b.last() == '/' {
            assert(before.push(Seq::<char>::empty()) =~= head + tail.push(Seq::<char>::empty()));
        } else {
            assert(before.drop_last() =~= head + tail.drop_last());
            assert(before.last() == tail.last());
            assert(before.drop_last().push(before.last().push(b.last())) =~= head
                + tail.drop_last().push(tail.last().push(b.last())));
        }
    }
}

/// The components among two runs of pieces are those of the first and then
/// those of the second.
pub proof fn lemma_keep_names_of_joined(p: Seq<Seq<char>>, q: Seq<Seq<char>>)
    ensures
        keep_names(p + q) == keep_names(p) + keep_names(q),
    decreases q.len(),
{
    if q.len() == 0 {
        assert(p + q =~= p);
        assert(keep_names(p) + keep_names(q) =~= keep_names(p));
    } else {
        lemma_keep_names_of_joined(p, q.drop_last());
        assert((p + q).drop_last() =~= p + q.drop_last());
        assert((p + q).last() == q.last());
        if is_name(q.last()) {
            assert(keep_names(p + q.drop_last()).push(q.last()) =~= keep_names(p) + keep_names(
                q.drop_last(),
            ).push(q.last()));
        }
    }
}

/// Path normalization: the components of two paths joined by a slash are
/// the components of the first and then those of the second. So a slash more
/// or less between two components, at the start or at the end of a path,
/// changes nothing, and neither does a `.` between two slashes.
pub proof fn law_components_of_joined(a: Seq<char>, b: Seq<char>)
    ensures
        path_components(a + seq!['/'] + b) == path_components(a) + path_components(b),
{
    lemma_split_of_joined(a, b);
    lemma_keep_names_of_joined(split_path(a), split_path(b));
}

/// A slash at the end of a path adds no component.
pub proof fn law_slash_at_end_is_ignored(path: Seq<char>)
    ensures
        path_components(path + seq!['/']) == path_components(path),
{
    let nothing = Seq::<char>::empty();
    law_components_of_joined(path, nothing);
    assert(path + seq!['/'] + nothing =~= path + seq!['/']);
    reveal_with_fuel(keep_names, 2);
    assert(split_path(nothing) =~= seq![nothing]);
    assert(seq![nothing].drop_last() =~= Seq::<Seq<char>>::empty());
    assert(path_components(nothing) =~= Seq::<Seq<char>>::empty());
    assert(path_components(path) + path_components(nothing) =~= path_components(path));
}

/// A `.` after a slash adds no component.
pub proof fn law_dot_is_ignored(path: Seq<char>)
    ensures
        path_components(path + seq!['/', '.']) == path_components(path),
{
    let dot = seq!['.'];
    law_components_of_joined(path, dot);
    assert(path + seq!['/'] + dot =~= path + seq!['/', '.']);
    lemma_split_of_piece(dot);
    reveal_with_fuel(keep_names, 2);
    assert(seq![dot].drop_last() =~= Seq::<Seq<char>>::empty());
    assert(path_components(dot) =~= Seq::<Seq<char>>::empty());
    assert(path_components(path) + path_components(dot) =~= path_components(path));
}

/// Two paths with the same components that are both absolute, or both
/// relative, name the same entry.
pub proof fn law_same_components_same_entry(s: FsState, a: Seq<char>, b: Seq<char>)
    requires
        a.len() > 0,
        b.len() > 0,
        (a[0] == '/') == (b[0] == '/'),
        path_components(a) == path_components(b),
    ensures
        s.resolve_node(a) == s.resolve_node(b),
{
}

/// A step down into a child directory and then `..` leads back: the walk
/// goes on from where it was. It takes the child to have no child of its
/// own called `..`.
pub proof fn law_down_and_up(s: FsState, dir: int, name: Seq<char>, rest: Seq<Seq<char>>)
    requires
        s.valid(),
        s.has_child(dir, name),
        s.is_dir(s.child(dir, name)),
        !s.has_child(s.child(dir, name), seq!['.', '.']),
    ensures
        s.walk(dir, seq![name, seq!['.', '.']] + rest) == if rest.len() == 0 {
            Ok::<usize, MemFSErrType>(dir as usize)
        } else {
            s.walk(dir, rest)
        },
{
    let up = seq!['.', '.'];
    let all = seq![name, up] + rest;
    let child = s.child(dir, name);
    assert(s.valid_child(dir, name));
    assert(all.drop_first() =~= seq![up] + rest);
    assert((seq![up] + rest).drop_first() =~= rest);
    assert(all[0] == name);
    assert((seq![up] + rest)[0] == up);
    assert(is_dotdot(up));
    reveal_with_fuel(FsState::walk, 3);
}

/// `..` asked of the root is the root: a walk goes on from the root, and as
/// the last step it gives the root's stand-in, which `chdir` reads as the
/// root. It takes the root to have no child called `..`.
pub proof fn law_parent_of_root_is_root(s: FsState, rest: Seq<Seq<char>>)
    requires
        s.valid(),
        !s.has_child(ROOT as int, seq!['.', '.']),
    ensures
        s.walk(ROOT as int, seq![seq!['.', '.']] + rest) == if rest.len() == 0 {
            Ok::<usize, MemFSErrType>(ROOT_SENTINEL)
        } else {
            s.walk(ROOT as int, rest)
        },
        s.cwd == ROOT ==> s.chdir(seq!['.', '.']) == (s, Ok::<(), MemFSErrType>(())),
{
    let up = seq!['.', '.'];
    let all = seq![up] + rest;
    assert(all.drop_first() =~= rest);
    assert(all[0] == up);
    assert(is_dotdot(up));
    reveal_with_fuel(FsState::walk, 2);
    if s.cwd == ROOT {
        lemma_split_of_piece(up);
        reveal_with_fuel(keep_names, 2);
        assert(seq![up].drop_last() =~= Seq::<Seq<char>>::empty());
        assert(path_components(up) =~= seq![up]);
        assert(seq![up] =~= seq![up] + Seq::<Seq<char>>::empty());
        assert(seq![up].drop_first() =~= Seq::<Seq<char>>::empty());
        let t = FsState { cwd: ROOT, ..s };
        assert(t == s);
    }
}

} // verus!
