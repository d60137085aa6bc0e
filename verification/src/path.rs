//! Paths as text, with `/` between their components.
//!
//! A path is compared component by component: repeated separators, a
//! trailing separator and `.` in the middle of a path make no difference.

use crate::text::{
    chars_of, lemma_split_count, lemma_split_joined, seqs_of, split, split_chars,
};
use vstd::prelude::*;
use vstd::string::StringExecFns;

verus! {

/// Whether a path starts at the root.
pub open spec fn is_absolute(path: Seq<char>) -> bool {
    path.len() > 0 && path[0] == '/'
}

/// `path` as seen from `base`: an absolute path stands for itself, any other
/// is appended to `base`, with a separator between them where `base` does
/// not end in one.
pub open spec fn join(base: Seq<char>, path: Seq<char>) -> Seq<char> {
    if is_absolute(path) {
        path
    } else if base.len() > 0 && base.last() != '/' {
        base + seq!['/'] + path
    } else {
        base + path
    }
}

/// Whether a segment between two separators names something: it is neither
/// empty nor `.`.
pub open spec fn is_name(segment: Seq<char>) -> bool {
    segment.len() > 0 && segment != seq!['.']
}

/// The segments that name something, in order.
pub open spec fn names(segments: Seq<Seq<char>>) -> Seq<Seq<char>>
    decreases segments.len(),
{
    if segments.len() == 0 {
        Seq::empty()
    } else if is_name(segments.last()) {
        names(segments.drop_last()).push(segments.last())
    } else {
        names(segments.drop_last())
    }
}

/// The components of a path. The root is the component `/`. A path that is
/// `.` or starts with `./` has `.` as its first component.
pub open spec fn components(path: Seq<char>) -> Seq<Seq<char>> {
    let segments = split(path, '/');
    if is_absolute(path) {
        seq![seq!['/']] + names(segments)
    } else if segments[0] == seq!['.'] {
        seq![seq!['.']] + names(segments)
    } else {
        names(segments)
    }
}

/// Whether `prefix` is the beginning of `whole`.
pub open spec fn is_prefix(prefix: Seq<Seq<char>>, whole: Seq<Seq<char>>) -> bool {
    prefix.len() <= whole.len() && whole.take(prefix.len() as int) == prefix
}

/// Whether the components of `base` are the first components of `path`.
pub open spec fn starts_with(path: Seq<char>, base: Seq<char>) -> bool {
    is_prefix(components(base), components(path))
}

/// The names among two lists of segments are the names among the first
/// followed by the names among the second.
pub proof fn lemma_names_of_both(first: Seq<Seq<char>>, second: Seq<Seq<char>>)
    ensures
        names(first + second) == names(first) + names(second),
    decreases second.len(),
{
    if second.len() > 0 {
        lemma_names_of_both(first, second.drop_last());
        assert((first + second).drop_last() == first + second.drop_last());
    }
}

/// A path that is not absolute, seen from `base`, lies at or below `base`.
pub proof fn lemma_joined_lies_below(base: Seq<char>, path: Seq<char>)
    requires
        !is_absolute(path),
    ensures
        starts_with(join(base, path), base),
{
    let joined = join(base, path);
    let ours = split(base, '/');
    let theirs = split(path, '/');
    lemma_split_count(base, '/');
    lemma_split_count(path, '/');
    if base.len() == 0 {
        assert(names(ours.drop_last()) == Seq::<Seq<char>>::empty());
        assert(components(joined).take(0) == Seq::<Seq<char>>::empty());
    } else if base.last() != '/' {
        lemma_split_joined(base, path, '/');
        lemma_names_of_both(ours, theirs);
        let tail = names(theirs);
        assert((names(ours) + tail).take(names(ours).len() as int) == names(ours));
        assert((seq![seq!['/']] + (names(ours) + tail)).take(1 + names(ours).len() as int) == seq![
            seq!['/'],
        ] + names(ours));
        assert((seq![seq!['.']] + (names(ours) + tail)).take(1 + names(ours).len() as int) == seq![
            seq!['.'],
        ] + names(ours));
    } else {
        let stem = base.drop_last();
        assert(base == stem + seq!['/']);
        lemma_split_joined(stem, path, '/');
        lemma_split_count(stem, '/');
        let stems = split(stem, '/');
        lemma_names_of_both(stems, theirs);
        assert(ours.drop_last() == stems);
        let tail = names(theirs);
        assert((names(stems) + tail).take(names(stems).len() as int) == names(stems));
        assert((seq![seq!['/']] + (names(stems) + tail)).take(1 + names(stems).len() as int) == seq![
            seq!['/'],
        ] + names(stems));
        assert((seq![seq!['.']] + (names(stems) + tail)).take(1 + names(stems).len() as int) == seq![
            seq!['.'],
        ] + names(stems));
    }
}

/// Tells whether a path starts at the root.
pub fn is_absolute_path(path: &str) -> (b: bool)
    ensures
        b == is_absolute(path@),
{
    let chars = chars_of(path);
    chars.len() > 0 && chars[0] == '/'
}

/// Resolves `path` against `base`.
pub fn join_paths(base: &str, path: &str) -> (joined: String)
    ensures
        joined@ == join(base@, path@),
{
    if is_absolute_path(path) {
        return String::from_str(path);
    }
    let chars = chars_of(base);
    let mut joined = String::from_str(base);
    if chars.len() > 0 && chars[chars.len() - 1] != '/' {
        proof {
            reveal_strlit("/");
        }
        joined.append("/");
    }
    joined.append(path);
    joined
}

/// Tells whether two character vectors hold the same text.
pub fn same_chars(a: &Vec<char>, b: &Vec<char>) -> (same: bool)
    ensures
        same == (a@ == b@),
{
    if a.len() != b.len() {
        return false;
    }
    let mut i: usize = 0;
    while i < a.len()
        invariant
            i <= a.len(),
            a.len() == b.len(),
            forall|j: int| 0 <= j < i ==> a@[j] == b@[j],
        decreases a.len() - i,
    {
        if a[i] != b[i] {
            return false;
        }
        i += 1;
    }
    assert(a@ =~= b@);
    true
}

/// The components of a path.
pub fn components_of(path: &Vec<char>) -> (parts: Vec<Vec<char>>)
    ensures
        seqs_of(parts@) == components(path@),
{
    let segments = split_chars(path, '/');
    let ghost all = split(path@, '/');
    let mut parts: Vec<Vec<char>> = Vec::new();
    let ghost head: Seq<Seq<char>> = Seq::empty();
    if path.len() > 0 && path[0] == '/' {
        let mut root: Vec<char> = Vec::new();
        root.push('/');
        proof {
            head = seq![seq!['/']];
        }
        parts.push(root);
    } else if segments[0].len() == 1 && segments[0][0] == '.' {
        let mut here: Vec<char> = Vec::new();
        here.push('.');
        proof {
            assert(segments@[0]@ == seq!['.']);
            head = seq![seq!['.']];
        }
        parts.push(here);
    }
    let mut i: usize = 0;
    while i < segments.len()
        invariant
            i <= segments.len(),
            seqs_of(segments@) == all,
            seqs_of(parts@) == head + names(all.take(i as int)),
        decreases segments.len() - i,
    {
        let segment = &segments[i];
        proof {
            assert(all.take(i as int + 1).drop_last() == all.take(i as int));
            if segment@.len() == 1 && segment@[0] == '.' {
                assert(segment@ == seq!['.']);
            }
        }
        if segment.len() > 0 && !(segment.len() == 1 && segment[0] == '.') {
            let ghost before = seqs_of(parts@);
            let mut name: Vec<char> = Vec::new();
            let mut k: usize = 0;
            while k < segment.len()
                invariant
                    k <= segment.len(),
                    name@ == segment@.take(k as int),
                decreases segment.len() - k,
            {
                name.push(segment[k]);
                k += 1;
            }
            proof {
                assert(segment@.take(segment@.len() as int) == segment@);
            }
            parts.push(name);
            proof {
                assert(seqs_of(parts@) == before.push(segment@));
            }
        }
        i += 1;
    }
    proof {
        assert(all.take(all.len() as int) == all);
    }
    parts
}

/// Tells whether the texts of `prefix` are the first texts of `whole`.
pub fn begins_with(whole: &Vec<Vec<char>>, prefix: &Vec<Vec<char>>) -> (b: bool)
    ensures
        b == is_prefix(seqs_of(prefix@), seqs_of(whole@)),
{
    if prefix.len() > whole.len() {
        proof {
        }
        return false;
    }
    let ghost whole_view = seqs_of(whole@);
    let ghost prefix_view = seqs_of(prefix@);
    let mut i: usize = 0;
    while i < prefix.len()
        invariant
            i <= prefix.len() <= whole.len(),
            whole_view == seqs_of(whole@),
            prefix_view == seqs_of(prefix@),
            forall|j: int| 0 <= j < i ==> whole_view[j] == prefix_view[j],
        decreases prefix.len() - i,
    {
        proof {
            assert(prefix_view[i as int] == prefix@[i as int]@);
        }
        if !same_chars(&whole[i], &prefix[i]) {
            proof {
            }
            return false;
        }
        i += 1;
    }
    proof {
        assert(whole_view.take(prefix_view.len() as int) =~= prefix_view);
    }
    true
}

/// Tells whether `path` lies at or below `base`, component by component.
pub fn path_starts_with(path: &str, base: &str) -> (b: bool)
    ensures
        b == starts_with(path@, base@),
{
    let whole = components_of(&chars_of(path));
    let prefix = components_of(&chars_of(base));
    begins_with(&whole, &prefix)
}

/// Whether two paths have the same components.
pub open spec fn same_path(a: Seq<char>, b: Seq<char>) -> bool {
    components(a) == components(b)
}

/// Tells whether two paths have the same components.
pub fn is_same_path(a: &str, b: &str) -> (same: bool)
    ensures
        same == same_path(a@, b@),
{
    let left = components_of(&chars_of(a));
    let right = components_of(&chars_of(b));
    proof {
        let whole = seqs_of(left@);
        assert(whole.take(whole.len() as int) == whole);
    }
    left.len() == right.len() && begins_with(&left, &right)
}

} // verus!
