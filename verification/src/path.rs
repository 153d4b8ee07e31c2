//! Path syntax: components separated by `/`, with empty and `.` components
//! ignored.

use vstd::prelude::*;
use vstd::string::*;
use crate::utils::{MemFSErr, MemFSErrType, Result};

verus! {

/// The pieces of `s` between its slashes, in order. There is always at least
/// one piece; a piece is empty where two slashes meet or `s` starts or ends
/// with a slash.
pub open spec fn split_path(s: Seq<char>) -> Seq<Seq<char>>
    decreases s.len(),
{
    if s.len() == 0 {
        seq![Seq::<char>::empty()]
    } else if s.last() == '/' {
        split_path(s.drop_last()).push(Seq::<char>::empty())
    } else {
        let before = split_path(s.drop_last());
        before.drop_last().push(before.last().push(s.last()))
    }
}

/// Whether a piece counts as a component: it is neither empty nor `.`.
pub open spec fn is_name(part: Seq<char>) -> bool {
    part.len() > 0 && !(part.len() == 1 && part[0] == '.')
}

/// The pieces that count as components, in order.
pub open spec fn keep_names(parts: Seq<Seq<char>>) -> Seq<Seq<char>>
    decreases parts.len(),
{
    if parts.len() == 0 {
        parts
    } else if is_name(parts.last()) {
        keep_names(parts.drop_last()).push(parts.last())
    } else {
        keep_names(parts.drop_last())
    }
}

/// The components of a path.
pub open spec fn path_components(path: Seq<char>) -> Seq<Seq<char>> {
    keep_names(split_path(path))
}

/// The components of a path but the last one.
pub open spec fn parent_components(path: Seq<char>) -> Seq<Seq<char>> {
    let all = path_components(path);
    if all.len() == 0 {
        all
    } else {
        all.drop_last()
    }
}

/// `s` without the slashes at its end.
pub open spec fn trim_slashes(s: Seq<char>) -> Seq<char>
    decreases s.len(),
{
    if s.len() > 0 && s.last() == '/' {
        trim_slashes(s.drop_last())
    } else {
        s
    }
}

/// The last piece of a path once the slashes at its end are gone. It is
/// empty only for a path made of slashes alone, or an empty one.
pub open spec fn last_component(path: Seq<char>) -> Seq<char> {
    split_path(trim_slashes(path)).last()
}

/// Whether a path starts at the root.
pub open spec fn is_absolute(path: Seq<char>) -> bool {
    path.len() > 0 && path[0] == '/'
}

/// The views of a vector of strings.
pub open spec fn names_of(strings: Seq<String>) -> Seq<Seq<char>> {
    Seq::new(strings.len(), |i: int| strings[i]@)
}

pub proof fn lemma_split_nonempty(s: Seq<char>)
    ensures
        split_path(s).len() >= 1,
    decreases s.len(),
{
    if s.len() > 0 {
        lemma_split_nonempty(s.drop_last());
    }
}

/// The last piece of `s` is what follows its last slash.
pub proof fn lemma_split_last(s: Seq<char>, start: int)
    requires
        0 <= start <= s.len(),
        forall|k: int| start <= k < s.len() ==> s[k] != '/',
        start == 0 || s[start - 1] == '/',
    ensures
        split_path(s).last() == s.subrange(start, s.len() as int),
    decreases s.len(),
{
    if s.len() == start {
        assert(s.subrange(start, s.len() as int) =~= Seq::<char>::empty());
    } else {
        lemma_split_last(s.drop_last(), start);
        assert(s.drop_last().subrange(start, s.len() - 1).push(s.last()) =~= s.subrange(
            start,
            s.len() as int,
        ));
    }
}

/// How `keep_names` treats one more piece.
pub proof fn lemma_keep_names_push(parts: Seq<Seq<char>>, part: Seq<char>)
    ensures
        keep_names(parts.push(part)) == if is_name(part) {
            keep_names(parts).push(part)
        } else {
            keep_names(parts)
        },
{
    assert(parts.push(part).drop_last() =~= parts);
}

/// The characters of a string, one by one.
fn collect_chars(path: &str) -> (chars: Vec<char>)
    ensures
        chars@ == path@,
{
    let n: usize = path.unicode_len();
    let mut chars: Vec<char> = Vec::new();
    let mut i: usize = 0;
    while i < n
        invariant
            n == path@.len(),
            i <= n,
            chars@ == path@.subrange(0, i as int),
        decreases n - i,
    {
        let c = path.get_char(i);
        chars.push(c);
        i = i + 1;
        assert(chars@ =~= path@.subrange(0, i as int));
    }
    assert(chars@ =~= path@);
    chars
}

/// Whether the characters from `start` up to `end` make a component.
fn is_name_at(chars: &Vec<char>, start: usize, end: usize) -> (named: bool)
    requires
        start <= end <= chars@.len(),
    ensures
        named == is_name(chars@.subrange(start as int, end as int)),
{
    let len: usize = end - start;
    if len == 0 {
        false
    } else if len == 1 {
        assert(chars@.subrange(start as int, end as int)[0] == chars@[start as int]);
        chars[start] != '.'
    } else {
        true
    }
}

/// The components of a path, or `ENOENT` for the empty path.
pub fn path_str_to_iter(path: &str) -> (components: Result<Vec<String>>)
    ensures
        path@.len() == 0 ==> components is Err && components->Err_0.is_kind(MemFSErrType::ENOENT),
        path@.len() > 0 ==> components is Ok && names_of(components->Ok_0@) == path_components(
            path@,
        ),
{
    let chars = collect_chars(path);
    let n: usize = chars.len();
    if n == 0 {
        return Err(MemFSErr::no_such_file_or_directory());
    }
    let mut names: Vec<String> = Vec::new();
    let mut start: usize = 0;
    let mut i: usize = 0;
    proof {
        assert(path@.subrange(0, 0) =~= Seq::<char>::empty());
        assert(split_path(path@.subrange(0, 0)).drop_last() =~= Seq::<Seq<char>>::empty());
        assert(names_of(names@) =~= Seq::<Seq<char>>::empty());
    }
    while i < n
        invariant
            chars@ == path@,
            n == chars@.len(),
            start <= i <= n,
            split_path(path@.subrange(0, i as int)).len() >= 1,
            split_path(path@.subrange(0, i as int)).last() == path@.subrange(
                start as int,
                i as int,
            ),
            names_of(names@) == keep_names(split_path(path@.subrange(0, i as int)).drop_last()),
        decreases n - i,
    {
        let c = chars[i];
        let ghost before = split_path(path@.subrange(0, i as int));
        proof {
            assert(path@.subrange(0, i + 1).drop_last() =~= path@.subrange(0, i as int));
            lemma_split_nonempty(path@.subrange(0, i + 1));
        }
        if c == '/' {
            let ghost old_names = names@;
            let named = is_name_at(&chars, start, i);
            if named {
                let name = path.substring_char(start, i).to_owned();
                names.push(name);
                assert(names_of(names@) =~= names_of(old_names).push(
                    path@.subrange(start as int, i as int),
                ));
            }
            proof {
                lemma_keep_names_push(before.drop_last(), before.last());
                assert(before.drop_last().push(before.last()) =~= before);
                assert(before.push(Seq::<char>::empty()).drop_last() =~= before);
                assert(path@.subrange(i + 1, i + 1) =~= Seq::<char>::empty());
            }
            start = i + 1;
        } else {
            proof {
                let after = before.drop_last().push(before.last().push(c));
                assert(after.drop_last() =~= before.drop_last());
                assert(path@.subrange(start as int, i as int).push(c) =~= path@.subrange(
                    start as int,
                    i + 1,
                ));
            }
        }
        i = i + 1;
    }
    let ghost pieces = split_path(path@);
    let ghost old_names = names@;
    proof {
        assert(path@.subrange(0, n as int) =~= path@);
        lemma_keep_names_push(pieces.drop_last(), pieces.last());
        assert(pieces.drop_last().push(pieces.last()) =~= pieces);
    }
    if is_name_at(&chars, start, n) {
        let name = path.substring_char(start, n).to_owned();
        names.push(name);
        assert(names_of(names@) =~= names_of(old_names).push(
            path@.subrange(start as int, n as int),
        ));
    }
    Ok(names)
}

/// The components of a path but the last one, or `ENOENT` for the empty
/// path.
pub fn path_str_to_iter_and_without_last_component(path: &str) -> (components: Result<
    Vec<String>,
>)
    ensures
        path@.len() == 0 ==> components is Err && components->Err_0.is_kind(MemFSErrType::ENOENT),
        path@.len() > 0 ==> components is Ok && names_of(components->Ok_0@) == parent_components(
            path@,
        ),
{
    match path_str_to_iter(path) {
        Err(e) => Err(e),
        Ok(all) => {
            let mut names = all;
            let ghost old_names = names@;
            let _ = names.pop();
            assert(names_of(names@) =~= if old_names.len() == 0 {
                names_of(old_names)
            } else {
                names_of(old_names).drop_last()
            });
            Ok(names)
        },
    }
}

/// Whether a path starts with a slash.
pub fn is_absolute_path(path: &str) -> (absolute: bool)
    ensures
        absolute == is_absolute(path@),
{
    path.unicode_len() > 0 && path.get_char(0) == '/'
}

/// The last component of a path, as written: what stands between the last
/// slash and the slashes that end the path.
pub fn get_last_component_of_path(path: &str) -> (name: Result<&str>)
    ensures
        name is Ok,
        name->Ok_0@ == last_component(path@),
{
    let chars = collect_chars(path);
    let mut end: usize = chars.len();
    assert(path@.subrange(0, end as int) =~= path@);
    while end > 0 && chars[end - 1] == '/'
        invariant
            chars@ == path@,
            end <= chars@.len(),
            trim_slashes(path@) == trim_slashes(path@.subrange(0, end as int)),
        decreases end,
    {
        proof {
            assert(path@.subrange(0, end as int).drop_last() =~= path@.subrange(0, end - 1));
        }
        end = end - 1;
    }
    let mut start: usize = end;
    while start > 0 && chars[start - 1] != '/'
        invariant
            chars@ == path@,
            start <= end <= chars@.len(),
            forall|k: int| start <= k < end ==> path@[k] != '/',
        decreases start,
    {
        start = start - 1;
    }
    proof {
        let trimmed = path@.subrange(0, end as int);
        assert(trim_slashes(trimmed) == trimmed);
        lemma_split_last(trimmed, start as int);
        assert(trimmed.subrange(start as int, end as int) =~= path@.subrange(
            start as int,
            end as int,
        ));
    }
    Ok(path.substring_char(start, end))
}

} // verus!
