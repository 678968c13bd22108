//! Lexical treatment of filesystem paths.
//!
//! A path is text. Nothing here looks at the filesystem: symbolic links are not resolved,
//! and `..` is a name like any other.

use vstd::prelude::*;

verus! {

// ---------------------------------------------------------------------------
// What a path says
// ---------------------------------------------------------------------------

/// The parts of a text between its slashes, empty ones and all.
pub open spec fn segments(path: Seq<char>) -> Seq<Seq<char>>
    decreases path.len(),
{
    if path.len() == 0 {
        seq![Seq::empty()]
    } else {
        let before = segments(path.drop_last());
        if path.last() == '/' {
            before.push(Seq::empty())
        } else {
            before.drop_last().push(before.last().push(path.last()))
        }
    }
}

/// A segment that names something: neither empty nor a single dot.
pub open spec fn is_name(segment: Seq<char>) -> bool {
    segment.len() > 0 && segment != seq!['.']
}

/// The segments that name something, in their order.
pub open spec fn kept(list: Seq<Seq<char>>) -> Seq<Seq<char>>
    decreases list.len(),
{
    if list.len() == 0 {
        Seq::empty()
    } else if is_name(list.last()) {
        kept(list.drop_last()).push(list.last())
    } else {
        kept(list.drop_last())
    }
}

/// The names along a path.
pub open spec fn names(path: Seq<char>) -> Seq<Seq<char>> {
    kept(segments(path))
}

/// The path starts at the root.
pub open spec fn is_absolute(path: Seq<char>) -> bool {
    path.len() > 0 && path[0] == '/'
}

/// The path starts with a `.` segment.
pub open spec fn starts_with_dot(path: Seq<char>) -> bool {
    segments(path)[0] == seq!['.']
}

/// Names with a slash between each and the next.
pub open spec fn join(list: Seq<Seq<char>>) -> Seq<char>
    decreases list.len(),
{
    if list.len() == 0 {
        Seq::empty()
    } else if list.len() == 1 {
        list[0]
    } else {
        join(list.drop_last()) + seq!['/'] + list.last()
    }
}

/// The path without redundant slashes, trailing slashes and `.` segments.
pub open spec fn normalized(path: Seq<char>) -> Seq<char> {
    if is_absolute(path) {
        seq!['/'] + join(names(path))
    } else {
        join(names(path))
    }
}

/// The paths have the same components: both start at the root or neither does, both start
/// with a `.` or neither does, and the names along them are the same.
pub open spec fn same_path(a: Seq<char>, b: Seq<char>) -> bool {
    &&& is_absolute(a) == is_absolute(b)
    &&& starts_with_dot(a) == starts_with_dot(b)
    &&& names(a) == names(b)
}

/// The texts of a list of strings.
pub open spec fn texts(list: Seq<String>) -> Seq<Seq<char>> {
    list.map_values(|s: String| s@)
}

// ---------------------------------------------------------------------------
// Segments
// ---------------------------------------------------------------------------

proof fn lemma_segments_nonempty(path: Seq<char>)
    ensures
        segments(path).len() > 0,
    decreases path.len(),
{
    if path.len() > 0 {
        lemma_segments_nonempty(path.drop_last());
    }
}

/// A text without slashes is its only segment.
proof fn lemma_segments_single(path: Seq<char>)
    requires
        !path.contains('/'),
    ensures
        segments(path) == seq![path],
    decreases path.len(),
{
    if path.len() > 0 {
        let before = path.drop_last();
        assert(!before.contains('/')) by {
            assert forall|i: int| 0 <= i < before.len() implies before[i] != '/' by {
                assert(path[i] != '/');
            }
        }
        lemma_segments_single(before);
        assert(path.last() != '/') by {
            assert(path.contains(path.last()));
        }
        assert(segments(path) =~= seq![before.push(path.last())]);
        assert(before.push(path.last()) =~= path);
    } else {
        assert(path =~= Seq::empty());
    }
}

/// A slash separates the segments before it from those after it.
proof fn lemma_segments_concat(a: Seq<char>, b: Seq<char>)
    ensures
        segments(a + seq!['/'] + b) == segments(a) + segments(b),
    decreases b.len(),
{
    let whole = a + seq!['/'] + b;
    lemma_segments_nonempty(a);
    lemma_segments_nonempty(b);
    if b.len() == 0 {
        assert(whole.drop_last() =~= a);
        assert(segments(whole) =~= segments(a) + segments(b));
    } else {
        let front = b.drop_last();
        lemma_segments_concat(a, front);
        lemma_segments_nonempty(front);
        assert(whole.drop_last() =~= a + seq!['/'] + front);
        assert(whole.last() == b.last());
        assert(segments(whole) =~= segments(a) + segments(b));
    }
}

/// No segment holds a slash.
proof fn lemma_segments_have_no_slash(path: Seq<char>)
    ensures
        forall|i: int| 0 <= i < segments(path).len() ==> !(#[trigger] segments(path)[i]).contains(
            '/',
        ),
    decreases path.len(),
{
    if path.len() > 0 {
        let before = segments(path.drop_last());
        lemma_segments_have_no_slash(path.drop_last());
        lemma_segments_nonempty(path.drop_last());
        let last = before.last();
        assert(!before[before.len() - 1].contains('/'));
        if path.last() != '/' {
            let grown = last.push(path.last());
            assert forall|j: int| 0 <= j < grown.len() implies grown[j] != '/' by {
                if j < last.len() {
                    assert(last.contains(last[j]));
                }
            }
        }
    }
}

// ---------------------------------------------------------------------------
// Names
// ---------------------------------------------------------------------------

proof fn lemma_kept_concat(a: Seq<Seq<char>>, b: Seq<Seq<char>>)
    ensures
        kept(a + b) == kept(a) + kept(b),
    decreases b.len(),
{
    if b.len() == 0 {
        assert(a + b =~= a);
        assert(kept(a) + kept(b) =~= kept(a));
    } else {
        lemma_kept_concat(a, b.drop_last());
        assert((a + b).drop_last() =~= a + b.drop_last());
        assert(kept(a + b) =~= kept(a) + kept(b));
    }
}

/// What is kept are names, and each was there.
proof fn lemma_kept_are_names(list: Seq<Seq<char>>)
    ensures
        forall|i: int|
            0 <= i < kept(list).len() ==> is_name(#[trigger] kept(list)[i]) && list.contains(
                kept(list)[i],
            ),
    decreases list.len(),
{
    if list.len() > 0 {
        let front = list.drop_last();
        lemma_kept_are_names(front);
        assert forall|i: int| 0 <= i < kept(list).len() implies is_name(#[trigger] kept(list)[i])
            && list.contains(kept(list)[i]) by {
            if i < kept(front).len() {
                assert(kept(list)[i] == kept(front)[i]);
                let j = choose|j: int| 0 <= j < front.len() && front[j] == kept(front)[i];
                assert(list[j] == kept(list)[i]);
            } else {
                assert(list[list.len() - 1] == kept(list)[i]);
            }
        }
    }
}

/// A list of names is kept as it is.
proof fn lemma_kept_of_names(list: Seq<Seq<char>>)
    requires
        forall|i: int| 0 <= i < list.len() ==> is_name(#[trigger] list[i]),
    ensures
        kept(list) == list,
    decreases list.len(),
{
    if list.len() > 0 {
        lemma_kept_of_names(list.drop_last());
        assert(list.drop_last().push(list.last()) =~= list);
    } else {
        assert(list =~= Seq::empty());
    }
}

/// The names along a path hold no slash.
proof fn lemma_names(path: Seq<char>)
    ensures
        forall|i: int|
            0 <= i < names(path).len() ==> is_name(#[trigger] names(path)[i]) && !names(
                path,
            )[i].contains('/'),
{
    lemma_kept_are_names(segments(path));
    lemma_segments_have_no_slash(path);
    assert forall|i: int| 0 <= i < names(path).len() implies is_name(#[trigger] names(path)[i])
        && !names(path)[i].contains('/') by {
        let name = names(path)[i];
        let j = choose|j: int| 0 <= j < segments(path).len() && segments(path)[j] == name;
        assert(!segments(path)[j].contains('/'));
    }
}

/// Joined names are the segments of the result.
proof fn lemma_segments_of_join(list: Seq<Seq<char>>)
    requires
        list.len() > 0,
        forall|i: int| 0 <= i < list.len() ==> !(#[trigger] list[i]).contains('/'),
    ensures
        segments(join(list)) == list,
    decreases list.len(),
{
    if list.len() == 1 {
        lemma_segments_single(list[0]);
        assert(seq![list[0]] =~= list);
    } else {
        let front = list.drop_last();
        lemma_segments_of_join(front);
        assert(!list[list.len() - 1].contains('/'));
        lemma_segments_single(list.last());
        lemma_segments_concat(join(front), list.last());
        assert(front + seq![list.last()] =~= list);
    }
}

/// The segments of a normalized path: an empty one before the root's slash where there is
/// one, then the names; one empty segment where there is nothing to name.
proof fn lemma_normalized_segments(path: Seq<char>)
    ensures
        segments(normalized(path)) == (if is_absolute(path) {
            seq![Seq::empty()]
        } else {
            Seq::empty()
        }) + (if names(path).len() == 0 {
            seq![Seq::empty()]
        } else {
            names(path)
        }),
        is_absolute(normalized(path)) == is_absolute(path),
{
    let list = names(path);
    lemma_names(path);
    let empty = Seq::<char>::empty();
    assert(segments(empty) =~= seq![empty]);
    let tail = if list.len() == 0 {
        seq![empty]
    } else {
        list
    };
    if list.len() > 0 {
        lemma_segments_of_join(list);
        lemma_join_starts_with_first(list);
        assert(list[0].len() > 0 && list[0][0] != '/') by {
            assert(is_name(list[0]));
            assert(list[0].contains(list[0][0]));
        }
    }
    assert(segments(join(list)) =~= tail);
    if is_absolute(path) {
        lemma_segments_concat(empty, join(list));
        assert(empty + seq!['/'] + join(list) =~= normalized(path));
    } else {
        assert(Seq::<Seq<char>>::empty() + tail =~= tail);
    }
}

proof fn lemma_join_starts_with_first(list: Seq<Seq<char>>)
    requires
        list.len() > 0,
        list[0].len() > 0,
    ensures
        join(list).len() > 0,
        join(list)[0] == list[0][0],
    decreases list.len(),
{
    if list.len() > 1 {
        lemma_join_starts_with_first(list.drop_last());
    }
}

// ---------------------------------------------------------------------------
// Computing with paths
// ---------------------------------------------------------------------------

/// The names along a path.
pub fn path_names(path: &str) -> (r: Vec<String>)
    ensures
        texts(r@) == names(path@),
{
    let mut list: Vec<String> = Vec::new();
    let len = path.unicode_len();
    let mut start: usize = 0;
    let mut i: usize = 0;
    let ghost mut done: Seq<Seq<char>> = Seq::empty();
    assert(path@.take(0) =~= Seq::empty());
    assert(path@.subrange(0, 0) =~= Seq::empty());
    assert(segments(path@.take(0)) =~= done.push(path@.subrange(0, 0)));
    assert(texts(list@) =~= kept(done));
    while i < len
        invariant
            len == path@.len(),
            start <= i <= len,
            segments(path@.take(i as int)) == done.push(path@.subrange(start as int, i as int)),
            texts(list@) == kept(done),
        decreases len - i,
    {
        let c = path.get_char(i);
        let ghost current = path@.subrange(start as int, i as int);
        assert(path@.take(i + 1).drop_last() =~= path@.take(i as int));
        assert(done.push(current).drop_last() =~= done);
        if c == '/' {
            push_if_name(&mut list, path.substring_char(start, i));
            proof {
                assert(segments(path@.take(i + 1)) =~= done.push(current).push(Seq::empty()));
                assert(path@.subrange(i + 1, i + 1) =~= Seq::empty());
                lemma_kept_push(done, current);
                done = done.push(current);
            }
            start = i + 1;
        } else {
            assert(path@.subrange(start as int, i + 1) =~= current.push(c));
        }
        i += 1;
    }
    let ghost current = path@.subrange(start as int, len as int);
    push_if_name(&mut list, path.substring_char(start, len));
    proof {
        assert(path@.take(len as int) =~= path@);
        lemma_kept_push(done, current);
    }
    list
}

/// Appends a segment to a list of names if it is a name.
fn push_if_name(list: &mut Vec<String>, segment: &str)
    ensures
        texts(final(list)@) == if is_name(segment@) {
            texts(old(list)@).push(segment@)
        } else {
            texts(old(list)@)
        },
{
    let len = segment.unicode_len();
    let is_dot = len == 1 && segment.get_char(0) == '.';
    assert(is_dot <==> segment@ =~= seq!['.']);
    if len > 0 && !is_dot {
        list.push(segment.to_owned());
        assert(texts(list@) =~= texts(old(list)@).push(segment@));
    }
}

proof fn lemma_kept_push(list: Seq<Seq<char>>, segment: Seq<char>)
    ensures
        kept(list.push(segment)) == if is_name(segment) {
            kept(list).push(segment)
        } else {
            kept(list)
        },
{
    assert(list.push(segment).drop_last() =~= list);
}

/// The path starts at the root.
fn starts_at_root(path: &str) -> (r: bool)
    ensures
        r == is_absolute(path@),
{
    path.unicode_len() > 0 && path.get_char(0) == '/'
}

/// The path starts with a `.` segment.
fn has_leading_dot(path: &str) -> (r: bool)
    ensures
        r == starts_with_dot(path@),
{
    let len = path.unicode_len();
    proof {
        lemma_first_segment(path@);
    }
    len > 0 && path.get_char(0) == '.' && (len == 1 || path.get_char(1) == '/')
}

/// The first segment is a dot exactly when the text is a dot with nothing or a slash
/// behind it.
proof fn lemma_first_segment(path: Seq<char>)
    ensures
        starts_with_dot(path) <==> path.len() > 0 && path[0] == '.' && (path.len() == 1 || path[1]
            == '/'),
    decreases path.len(),
{
    let dot = seq!['.'];
    assert(dot[0] == '.');
    if path.len() > 0 {
        let front = path.drop_last();
        lemma_first_segment(front);
        lemma_segments_nonempty(front);
        if path.len() == 1 {
            assert(front =~= Seq::empty());
            assert(segments(front) =~= seq![Seq::empty()]);
            if path[0] != '/' {
                assert(segments(path)[0] =~= seq![path[0]]);
                assert(segments(path)[0][0] == path[0]);
            }
        } else if path.last() != '/' && segments(front).len() == 1 {
            lemma_single_segment(front);
            assert(segments(path)[0] == front.push(path.last()));
            assert(segments(path)[0].len() == path.len());
            lemma_segments_have_no_slash(front);
            assert(!segments(front)[0].contains('/'));
            assert(front.contains(front[0]));
            assert(path.len() > 2 ==> front.contains(front[1]));
        } else {
            assert(segments(path)[0] == segments(front)[0]);
            if path.len() == 2 && path[1] != '/' {
                // `front` is one slash.
                if front[0] != '/' {
                    assert(front =~= seq![front[0]]);
                    assert(!front.contains('/'));
                    lemma_segments_single(front);
                }
            }
        }
    } else {
        assert(segments(path)[0] =~= Seq::empty());
    }
}

/// A text of one segment is that segment.
proof fn lemma_single_segment(path: Seq<char>)
    requires
        segments(path).len() == 1,
    ensures
        segments(path)[0] == path,
    decreases path.len(),
{
    if path.len() > 0 {
        lemma_segments_nonempty(path.drop_last());
        lemma_single_segment(path.drop_last());
        assert(path.drop_last().push(path.last()) =~= path);
    } else {
        assert(path =~= Seq::empty());
    }
}

/// Normalize a path: redundant separators, trailing slashes and `.` segments collapse.
///
/// The text alone decides; the path need not exist.
pub fn normalize_path(path: &str) -> (r: String)
    ensures
        r@ == normalized(path@),
{
    let list = path_names(path);
    let mut out = String::new();
    if starts_at_root(path) {
        out.append("/");
    }
    let ghost root = out@;
    proof {
        reveal_strlit("/");
        assert("/"@ =~= seq!['/']);
        assert(root =~= if is_absolute(path@) {
            seq!['/']
        } else {
            Seq::empty()
        });
        assert(texts(list@).take(0) =~= Seq::empty());
        assert(root + join(Seq::empty()) =~= root);
    }
    let mut i: usize = 0;
    while i < list.len()
        invariant
            i <= list.len(),
            "/"@ == seq!['/'],
            out@ == root + join(texts(list@).take(i as int)),
        decreases list.len() - i,
    {
        let ghost before = texts(list@).take(i as int);
        let ghost after = texts(list@).take(i + 1);
        assert(after.drop_last() =~= before);
        assert(after.last() == list@[i as int]@);
        if i > 0 {
            out.append("/");
        }
        out.append(list[i].as_str());
        assert(out@ =~= root + join(after));
        i += 1;
    }
    proof {
        assert(texts(list@).take(list@.len() as int) =~= names(path@));
        assert(root + join(names(path@)) =~= normalized(path@));
    }
    out
}

/// The paths have the same components.
pub fn paths_equal(a: &str, b: &str) -> (r: bool)
    ensures
        r == same_path(a@, b@),
{
    if starts_at_root(a) != starts_at_root(b) || has_leading_dot(a) != has_leading_dot(b) {
        return false;
    }
    let x = path_names(a);
    let y = path_names(b);
    if x.len() != y.len() {
        assert(texts(x@).len() != texts(y@).len());
        return false;
    }
    let mut i: usize = 0;
    while i < x.len()
        invariant
            i <= x.len(),
            x.len() == y.len(),
            texts(x@) == names(a@),
            texts(y@) == names(b@),
            forall|j: int| 0 <= j < i ==> #[trigger] texts(x@)[j] == texts(y@)[j],
        decreases x.len() - i,
    {
        if x[i] != y[i] {
            assert(texts(x@)[i as int] != texts(y@)[i as int]);
            return false;
        }
        i += 1;
    }
    assert(texts(x@) =~= texts(y@));
    true
}

// ---------------------------------------------------------------------------
// Laws
// ---------------------------------------------------------------------------

/// Normalizing keeps the names along a path, and whether it starts at the root.
pub proof fn law_normalize_keeps_names(path: Seq<char>)
    ensures
        names(normalized(path)) == names(path),
        is_absolute(normalized(path)) == is_absolute(path),
{
    lemma_normalized_segments(path);
    lemma_names(path);
    let empty = Seq::<char>::empty();
    let head: Seq<Seq<char>> = if is_absolute(path) {
        seq![empty]
    } else {
        Seq::empty()
    };
    let tail = if names(path).len() == 0 {
        seq![empty]
    } else {
        names(path)
    };
    lemma_kept_concat(head, tail);
    reveal_with_fuel(kept, 2);
    assert(kept(head) =~= Seq::empty());
    if names(path).len() > 0 {
        lemma_kept_of_names(names(path));
    }
    assert(kept(head) + kept(tail) =~= names(path));
}

/// Normalizing twice is normalizing once.
pub proof fn law_normalize_idempotent(path: Seq<char>)
    ensures
        normalized(normalized(path)) == normalized(path),
{
    law_normalize_keeps_names(path);
}

/// Two paths normalize to the same text exactly when the names along them are the same
/// and both start at the root or neither does: redundant slashes, trailing slashes and `.`
/// segments cannot tell aliases apart.
pub proof fn law_normalize_identifies_aliases(a: Seq<char>, b: Seq<char>)
    ensures
        normalized(a) == normalized(b) <==> names(a) == names(b) && is_absolute(a) == is_absolute(
            b,
        ),
{
    law_normalize_keeps_names(a);
    law_normalize_keeps_names(b);
}

/// A normalized path has no `.` segment, no empty segment but the one before the root's
/// slash (and what follows it, when the root is all there is), and so no doubled and no
/// trailing slash.
pub proof fn law_normalized_has_no_redundant_segment(path: Seq<char>)
    ensures
        forall|i: int|
            0 <= i < segments(normalized(path)).len() ==> #[trigger] segments(normalized(path))[i]
                != seq!['.'],
        names(path).len() > 0 ==> forall|i: int|
            (if is_absolute(path) { 1int } else { 0int }) <= i < segments(normalized(path)).len()
                ==> (#[trigger] segments(normalized(path))[i]).len() > 0,
        names(path).len() > 0 ==> normalized(path).last() != '/',
{
    lemma_normalized_segments(path);
    lemma_names(path);
    let head = if is_absolute(path) { 1int } else { 0int };
    let all = segments(normalized(path));
    assert forall|i: int| 0 <= i < all.len() implies #[trigger] all[i] != seq!['.'] by {
        if names(path).len() > 0 && i >= head {
            assert(is_name(names(path)[i - head]));
        }
    }
    if names(path).len() > 0 {
        assert forall|i: int| head <= i < all.len() implies (#[trigger] all[i]).len() > 0 by {
            assert(is_name(names(path)[i - head]));
        }
        lemma_join_starts_with_first(names(path));
        assert(is_name(names(path)[names(path).len() - 1]));
        if normalized(path).last() == '/' {
            assert(all.last().len() == 0);
            assert(false);
        }
    }
}

/// A path that starts at the root has the components of its normalized form.
pub proof fn law_absolute_path_is_its_normal_form(path: Seq<char>)
    requires
        is_absolute(path),
    ensures
        same_path(path, normalized(path)),
{
    law_normalize_keeps_names(path);
    lemma_absolute_first_segment(path);
    lemma_absolute_first_segment(normalized(path));
}

/// Before the root's slash there is nothing.
proof fn lemma_absolute_first_segment(path: Seq<char>)
    requires
        is_absolute(path),
    ensures
        segments(path)[0].len() == 0,
{
    let rest = path.subrange(1, path.len() as int);
    let empty = Seq::<char>::empty();
    assert(empty + seq!['/'] + rest =~= path);
    lemma_segments_concat(empty, rest);
    assert(segments(empty) =~= seq![empty]);
}

/// Sameness of paths is an equivalence.
pub proof fn law_same_path_equivalence(a: Seq<char>, b: Seq<char>, c: Seq<char>)
    ensures
        same_path(a, a),
        same_path(a, b) == same_path(b, a),
        same_path(a, b) && same_path(b, c) ==> same_path(a, c),
{
}

/// The texts of a list are those of its strings, one for one.
pub proof fn law_texts(list: Seq<String>)
    ensures
        texts(list).len() == list.len(),
        forall|i: int| 0 <= i < list.len() ==> #[trigger] texts(list)[i] == list[i]@,
{
}

/// What the segments of a path are: a text without slashes is one segment, and a slash
/// separates the segments before it from those after it.
pub proof fn law_segments(a: Seq<char>, b: Seq<char>)
    ensures
        !a.contains('/') ==> segments(a) == seq![a],
        segments(a + seq!['/'] + b) == segments(a) + segments(b),
{
    if !a.contains('/') {
        lemma_segments_single(a);
    }
    lemma_segments_concat(a, b);
}

/// The names along a path are all its segments, in order, but the empty ones and those that
/// are a single dot.
pub proof fn law_names_are_the_naming_segments(path: Seq<char>)
    ensures
        names(path) == segments(path).filter(
            |segment: Seq<char>| segment.len() > 0 && segment != seq!['.'],
        ),
{
    lemma_kept_is_filter(segments(path));
}

proof fn lemma_kept_is_filter(list: Seq<Seq<char>>)
    ensures
        kept(list) == list.filter(
            |segment: Seq<char>| segment.len() > 0 && segment != seq!['.'],
        ),
    decreases list.len(),
{
    reveal(Seq::filter);
    if list.len() > 0 {
        lemma_kept_is_filter(list.drop_last());
    }
}

/// Segments joined with slashes are the path again.
proof fn lemma_join_of_segments(path: Seq<char>)
    ensures
        join(segments(path)) == path,
    decreases path.len(),
{
    if path.len() == 0 {
        assert(path =~= Seq::empty());
    } else {
        let front = path.drop_last();
        let before = segments(front);
        let all = segments(path);
        lemma_join_of_segments(front);
        lemma_segments_nonempty(front);
        if path.last() == '/' {
            assert(all.drop_last() =~= before);
            assert(join(all) =~= path);
        } else {
            assert(all.drop_last() =~= before.drop_last());
            assert(all.last() == before.last().push(path.last()));
            if before.len() > 1 {
                assert(join(all) =~= join(before).push(path.last()));
            } else {
                assert(join(before) == before[0]);
            }
            assert(front.push(path.last()) =~= path);
        }
    }
}

/// Two lists joined are the one joined, a slash, and the other joined.
proof fn lemma_join_concat(a: Seq<Seq<char>>, b: Seq<Seq<char>>)
    requires
        a.len() > 0,
        b.len() > 0,
    ensures
        join(a + b) == join(a) + seq!['/'] + join(b),
    decreases b.len(),
{
    let whole = a + b;
    assert(whole.drop_last() =~= a + b.drop_last());
    assert(whole.last() == b.last());
    if b.len() == 1 {
        assert(whole.drop_last() =~= a);
    } else {
        lemma_join_concat(a, b.drop_last());
        assert(join(whole) =~= join(a) + seq!['/'] + join(b));
    }
}

/// Where a segment stands in its path: at the start or behind a slash, and at the end or
/// before a slash.
proof fn lemma_segment_position(path: Seq<char>, k: int) -> (at: int)
    requires
        0 <= k < segments(path).len(),
    ensures
        0 <= at <= at + segments(path)[k].len() <= path.len(),
        path.subrange(at, at + segments(path)[k].len()) == segments(path)[k],
        k == 0 ==> at == 0,
        k > 0 ==> at > 0 && path[at - 1] == '/',
        k + 1 == segments(path).len() ==> at + segments(path)[k].len() == path.len(),
        k + 1 < segments(path).len() ==> at + segments(path)[k].len() < path.len() && path[at
            + segments(path)[k].len()] == '/',
{
    let all = segments(path);
    let segment = all[k];
    lemma_join_of_segments(path);
    let upto = all.take(k + 1);
    let rest = all.skip(k + 1);
    assert(upto + rest =~= all);
    if rest.len() > 0 {
        lemma_join_concat(upto, rest);
    } else {
        assert(upto =~= all);
    }
    let before = all.take(k);
    assert(upto.drop_last() =~= before);
    assert(upto.last() == segment);
    let head = join(upto);
    let at = if k == 0 {
        0int
    } else {
        join(before).len() as int + 1
    };
    assert(head.len() == at + segment.len());
    assert(head.subrange(at, at + segment.len()) =~= segment);
    assert(path.take(head.len() as int) =~= head);
    assert forall|i: int| 0 <= i < head.len() implies path[i] == head[i] by {
        assert(path.take(head.len() as int)[i] == head[i]);
    }
    assert(path.subrange(at, at + segment.len()) =~= segment);
    if k > 0 {
        assert(head[at - 1] == '/');
    }
    at
}

/// A path with nothing to collapse is its own normal form: no two slashes in a row, no slash
/// at the end (but for the root itself), and no dot that stands alone between slashes or ends.
pub proof fn law_nothing_to_collapse(path: Seq<char>)
    requires
        forall|i: int|
            0 <= i < path.len() - 1 && #[trigger] path[i] == '/' ==> path[i + 1] != '/',
        path.len() > 1 ==> path.last() != '/',
        forall|i: int|
            0 <= i < path.len() && #[trigger] path[i] == '.' && (i == 0 || path[i - 1] == '/') ==> i
                + 1 < path.len() && path[i + 1] != '/',
    ensures
        normalized(path) == path,
{
    let all = segments(path);
    lemma_segments_nonempty(path);
    lemma_join_of_segments(path);
    if path.len() <= 1 {
        assert(path.len() == 1 ==> path =~= seq![path[0]]);
        if path.len() == 1 && path[0] != '/' {
            assert(!path.contains('/'));
        } else if path.len() == 0 {
            assert(!path.contains('/'));
        } else {
            lemma_segments_concat(Seq::empty(), Seq::empty());
            assert(Seq::<char>::empty() + seq!['/'] + Seq::empty() =~= path);
        }
        if !path.contains('/') {
            lemma_segments_single(path);
        }
        reveal_with_fuel(kept, 3);
        if path.len() == 1 && path[0] != '/' {
            assert(path[0] != '.');
            assert(seq!['.'][0] == '.');
            assert(names(path) =~= seq![path]);
        } else {
            assert(names(path) =~= Seq::empty());
        }
        assert(normalized(path) =~= path);
    } else {
        let root = if is_absolute(path) {
            1int
        } else {
            0int
        };
        assert forall|k: int| root <= k < all.len() implies is_name(#[trigger] all[k]) by {
            let at = lemma_segment_position(path, k);
            let segment = all[k];
            if segment.len() == 0 {
                if k + 1 == all.len() {
                    if k == 0 {
                        assert(path.len() == 0);
                    }
                    assert(path[at - 1] == path.last());
                } else if k == 0 {
                    assert(path[0] == '/');
                } else {
                    assert(path[at - 1] == '/' && path[at] == '/');
                }
                assert(false);
            }
            if segment == seq!['.'] {
                assert(segment[0] == '.');
                assert(path.subrange(at, at + 1)[0] == path[at]);
                assert(path[at] == '.');
                assert(false);
            }
        }
        if is_absolute(path) {
            lemma_absolute_first_segment(path);
            let rest = all.skip(1);
            assert(seq![all[0]] + rest =~= all);
            assert(all[0].len() == 0);
            if rest.len() == 0 {
                assert(join(all) == all[0]);
                assert(false);
            }
            lemma_join_concat(seq![all[0]], rest);
            lemma_kept_concat(seq![all[0]], rest);
            assert forall|i: int| 0 <= i < rest.len() implies is_name(#[trigger] rest[i]) by {
                assert(rest[i] == all[i + 1]);
            }
            lemma_kept_of_names(rest);
            reveal_with_fuel(kept, 2);
            assert(kept(seq![all[0]]) =~= Seq::empty());
            assert(names(path) =~= rest);
            assert(join(seq![all[0]]) =~= Seq::empty());
            assert(path =~= seq!['/'] + join(rest));
        } else {
            lemma_kept_of_names(all);
        }
    }
}

/// What collapses: two slashes into one, a dot between slashes with one of them, a slash or a
/// slash and a dot at the end, and a dot at the start. No other character goes: with
/// [`law_nothing_to_collapse`] this says what every path is normalized to.
pub proof fn law_what_collapses(a: Seq<char>, b: Seq<char>)
    ensures
        normalized(a + seq!['/', '/'] + b) == normalized(a + seq!['/'] + b),
        normalized(a + seq!['/', '.', '/'] + b) == normalized(a + seq!['/'] + b),
        a.len() > 0 ==> normalized(a + seq!['/']) == normalized(a),
        normalized(a + seq!['/', '.']) == normalized(a + seq!['/']),
        !(b.len() > 0 && b[0] == '/') ==> normalized(seq!['.', '/'] + b) == normalized(b),
        normalized(seq!['.']) == Seq::<char>::empty(),
{
    let empty = Seq::<char>::empty();
    let dot = seq!['.'];
    let slash = seq!['/'];
    assert(!dot.contains('/')) by {
        assert(dot[0] == '.');
    }
    lemma_segments_single(empty);
    lemma_segments_single(dot);
    assert(kept(seq![empty]) =~= Seq::empty()) by {
        reveal_with_fuel(kept, 2);
    }
    assert(kept(seq![dot]) =~= Seq::empty()) by {
        reveal_with_fuel(kept, 2);
    }
    lemma_segments_concat(a, b);
    lemma_kept_concat(segments(a), segments(b));
    lemma_names_behind(a, empty, b);
    lemma_names_behind(a, dot, b);
    assert(a + seq!['/', '/'] + b =~= a + slash + (empty + slash + b));
    assert(a + seq!['/', '.', '/'] + b =~= a + slash + (dot + slash + b));

    lemma_segments_concat(a, empty);
    lemma_kept_concat(segments(a), seq![empty]);
    lemma_segments_concat(a, dot);
    lemma_kept_concat(segments(a), seq![dot]);
    assert(a + slash + empty =~= a + slash);
    assert(a + slash + dot =~= a + seq!['/', '.']);
    assert(names(a) + Seq::<Seq<char>>::empty() =~= names(a));
    if a.len() > 0 {
        assert((a + slash)[0] == a[0]);
    }
    assert((a + slash + b)[0] == (a + slash)[0]);
    assert((a + seq!['/', '/'] + b)[0] == (a + slash)[0]);
    assert((a + seq!['/', '.', '/'] + b)[0] == (a + slash)[0]);
    assert((a + seq!['/', '.'])[0] == (a + slash)[0]);

    lemma_segments_concat(dot, b);
    lemma_kept_concat(seq![dot], segments(b));
    assert(dot + slash + b =~= seq!['.', '/'] + b);
    assert((seq!['.', '/'] + b)[0] == '.');
    assert(Seq::<Seq<char>>::empty() + names(b) =~= names(b));
    assert(join(Seq::empty()) =~= empty);
    assert(normalized(dot) =~= empty);
}

/// A segment that names nothing, between two slashes, adds no name.
proof fn lemma_names_behind(a: Seq<char>, segment: Seq<char>, b: Seq<char>)
    requires
        segments(segment) == seq![segment],
        kept(seq![segment]) == Seq::<Seq<char>>::empty(),
    ensures
        names(a + seq!['/'] + (segment + seq!['/'] + b)) == names(a + seq!['/'] + b),
{
    let rest = segment + seq!['/'] + b;
    lemma_segments_concat(a, rest);
    lemma_segments_concat(segment, b);
    lemma_segments_concat(a, b);
    lemma_kept_concat(segments(a), segments(rest));
    lemma_kept_concat(seq![segment], segments(b));
    lemma_kept_concat(segments(a), segments(b));
    assert(Seq::<Seq<char>>::empty() + names(b) =~= names(b));
}

/// Two paths are the same exactly when they have one normal form, and both or neither start
/// with a dot that stands alone.
pub proof fn law_same_path_by_normal_form(a: Seq<char>, b: Seq<char>)
    ensures
        same_path(a, b) <==> normalized(a) == normalized(b) && (a.len() > 0 && a[0] == '.' && (
        a.len() == 1 || a[1] == '/')) == (b.len() > 0 && b[0] == '.' && (b.len() == 1 || b[1]
            == '/')),
{
    law_normalize_identifies_aliases(a, b);
    lemma_first_segment(a);
    lemma_first_segment(b);
}

} // verus!
