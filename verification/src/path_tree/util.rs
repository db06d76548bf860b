//! Path strings: segments, canonical form, parent and name.
//!
//! Both `/` and `\` separate segments.

use vstd::prelude::*;
use vstd::string::{StrSliceExecFns, StringExecFns};
use crate::text::{chars_of, str_eq};

verus! {

broadcast use vstd::string::group_string_axioms;

/// Path separators.
pub open spec fn is_sep(c: char) -> bool {
    c == '/' || c == '\\'
}

fn is_separator(c: char) -> (b: bool)
    ensures
        b == is_sep(c),
{
    c == '/' || c == '\\'
}

/// The characters after the last separator of `s`.
pub open spec fn last_piece(s: Seq<char>) -> Seq<char>
    decreases s.len(),
{
    if s.len() == 0 {
        seq![]
    } else if is_sep(s.last()) {
        seq![]
    } else {
        last_piece(s.drop_last()).push(s.last())
    }
}

/// The non-empty segments of `s` that a separator ends.
pub open spec fn closed_segments(s: Seq<char>) -> Seq<Seq<char>>
    decreases s.len(),
{
    if s.len() == 0 {
        seq![]
    } else if is_sep(s.last()) {
        let piece = last_piece(s.drop_last());
        closed_segments(s.drop_last()) + if piece.len() > 0 {
            seq![piece]
        } else {
            seq![]
        }
    } else {
        closed_segments(s.drop_last())
    }
}

/// The non-empty segments of `s`, in order: the pieces between separators
/// with the empty ones left out.
pub open spec fn segments(s: Seq<char>) -> Seq<Seq<char>> {
    closed_segments(s) + if last_piece(s).len() > 0 {
        seq![last_piece(s)]
    } else {
        seq![]
    }
}

/// Views of a list of strings.
pub open spec fn strs_view(v: Seq<&str>) -> Seq<Seq<char>> {
    v.map_values(|x: &str| x@)
}

/// The non-empty segments of `path`, in order.
pub fn ancestors_of(path: &str) -> (r: Vec<&str>)
    ensures
        strs_view(r@) == segments(path@),
{
    let chars = chars_of(path);
    let ghost s = path@;
    let n = chars.len();
    let mut r: Vec<&str> = Vec::new();
    let mut start: usize = 0;
    let mut i: usize = 0;
    assert(s.take(0) =~= Seq::<char>::empty());
    assert(s.subrange(0, 0) =~= Seq::<char>::empty());
    while i < n
        invariant
            s == path@,
            chars@ == s,
            n == chars.len(),
            start <= i <= n,
            strs_view(r@) == closed_segments(s.take(i as int)),
            last_piece(s.take(i as int)) == s.subrange(start as int, i as int),
        decreases n - i,
    {
        let ghost before = r@;
        assert(s.take(i + 1).drop_last() =~= s.take(i as int));
        assert(s.take(i + 1).last() == chars@[i as int]);
        if is_separator(chars[i]) {
            if start < i {
                r.push(path.substring_char(start, i));
            }
            start = i + 1;
            assert(strs_view(r@) =~= closed_segments(s.take(i + 1)));
            assert(s.subrange(start as int, i + 1) =~= Seq::<char>::empty());
        } else {
            assert(s.subrange(start as int, i + 1) =~= s.subrange(start as int, i as int).push(
                chars@[i as int],
            ));
        }
        i += 1;
    }
    assert(s.take(n as int) =~= s);
    if start < n {
        r.push(path.substring_char(start, n));
    }
    assert(strs_view(r@) =~= segments(s));
    r
}

/// The canonical route of `segs`: `.` stays, `..` goes back one segment
/// (`None` when it would go above the root), any other segment goes in.
pub open spec fn resolve(segs: Seq<Seq<char>>) -> Option<Seq<Seq<char>>>
    decreases segs.len(),
{
    if segs.len() == 0 {
        Some(seq![])
    } else {
        match resolve(segs.drop_last()) {
            None => None,
            Some(route) => {
                let name = segs.last();
                if name == seq!['.'] {
                    Some(route)
                } else if name == seq!['.', '.'] {
                    if route.len() == 0 {
                        None
                    } else {
                        Some(route.drop_last())
                    }
                } else {
                    Some(route.push(name))
                }
            },
        }
    }
}

/// The segments of `route` joined by `/`.
pub open spec fn join(route: Seq<Seq<char>>) -> Seq<char>
    decreases route.len(),
{
    if route.len() == 0 {
        seq![]
    } else if route.len() == 1 {
        route[0]
    } else {
        join(route.drop_last()) + seq!['/'] + route.last()
    }
}

/// Once `..` climbs above the root, no later segment helps.
proof fn lemma_resolve_none_stays(segs: Seq<Seq<char>>, m: int)
    requires
        0 <= m <= segs.len(),
        resolve(segs.take(m)) is None,
    ensures
        resolve(segs) is None,
    decreases segs.len() - m,
{
    if m < segs.len() {
        assert(segs.take(m + 1).drop_last() =~= segs.take(m));
        lemma_resolve_none_stays(segs, m + 1);
    } else {
        assert(segs.take(m) =~= segs);
    }
}

/// Canonical form of a path: segments joined by `/`, without empty
/// segments, `.` or `..`; `None` when `..` goes above the root.
pub open spec fn canonical(s: Seq<char>) -> Option<Seq<char>> {
    match resolve(segments(s)) {
        Some(route) => Some(join(route)),
        None => None,
    }
}

/// Canonical form of `path`: separators unified to `/`, empty segments
/// and `.` dropped, `..` resolved; `None` when the path climbs above the
/// root. The result looks like `game/scene/start.txt`.
pub fn canonicalize(path: &str) -> (r: Option<String>)
    ensures
        match canonical(path@) {
            Some(c) => r matches Some(x) && x@ == c,
            None => r is None,
        },
{
    proof {
        reveal_strlit(".");
        reveal_strlit("..");
        reveal_strlit("/");
        assert("."@ =~= seq!['.']);
        assert(".."@ =~= seq!['.', '.']);
        assert("/"@ =~= seq!['/']);
    }
    let names = ancestors_of(path);
    let ghost segs = segments(path@);
    let mut route: Vec<&str> = Vec::new();
    let mut k: usize = 0;
    assert(segs.take(0) =~= Seq::<Seq<char>>::empty());
    while k < names.len()
        invariant
            segs == segments(path@),
            strs_view(names@) == segs,
            k <= names.len(),
            resolve(segs.take(k as int)) == Some(strs_view(route@)),
            "."@ == seq!['.'],
            ".."@ == seq!['.', '.'],
        decreases names.len() - k,
    {
        let name = names[k];
        assert(segs.take(k + 1).drop_last() =~= segs.take(k as int));
        assert(segs.take(k + 1).last() == name@);
        if str_eq(name, ".") {
        } else if str_eq(name, "..") {
            if route.len() == 0 {
                proof {
                    lemma_resolve_none_stays(segs, k + 1);
                }
                return None;
            }
            let ghost before = route@;
            route.pop();
            assert(strs_view(route@) =~= strs_view(before).drop_last());
        } else {
            route.push(name);
        }
        assert(strs_view(route@) =~= resolve(segs.take(k + 1))->Some_0);
        k += 1;
    }
    assert(segs.take(k as int) =~= segs);
    let mut out = String::new();
    let mut j: usize = 0;
    assert(route@.take(0) =~= Seq::<&str>::empty());
    while j < route.len()
        invariant
            j <= route.len(),
            out@ == join(strs_view(route@.take(j as int))),
            "/"@ == seq!['/'],
        decreases route.len() - j,
    {
        assert(strs_view(route@.take(j + 1)).drop_last() =~= strs_view(route@.take(j as int)));
        if j > 0 {
            out.append("/");
        }
        out.append(route[j]);
        proof {
            let v = strs_view(route@.take(j + 1));
            if j == 0 {
                assert(v =~= seq![route@[0]@]);
                assert(out@ =~= v[0]);
            } else {
                assert(v.last() == route@[j as int]@);
            }
        }
        j += 1;
    }
    assert(route@.take(j as int) =~= route@);
    Some(out)
}

/// Length of `s` without its trailing separators.
pub open spec fn trimmed_len(s: Seq<char>) -> int
    decreases s.len(),
{
    if s.len() > 0 && is_sep(s.last()) {
        trimmed_len(s.drop_last())
    } else {
        s.len() as int
    }
}

/// Index of the last separator of `s`.
pub open spec fn last_sep(s: Seq<char>) -> Option<int>
    decreases s.len(),
{
    if s.len() == 0 {
        None
    } else if is_sep(s.last()) {
        Some(s.len() - 1)
    } else {
        last_sep(s.drop_last())
    }
}

/// Index of the first separator of `s` at or after `i`.
pub open spec fn first_sep_from(s: Seq<char>, i: int) -> Option<int>
    decreases s.len() - i,
{
    if i < 0 || i >= s.len() {
        None
    } else if is_sep(s[i]) {
        Some(i)
    } else {
        first_sep_from(s, i + 1)
    }
}

/// Parent of a path: with trailing separators dropped, what comes before
/// the last separator, again without trailing separators; empty (the root)
/// when there is no separator.
pub open spec fn parent_spec(s: Seq<char>) -> Seq<char> {
    let t = s.take(trimmed_len(s));
    match last_sep(t) {
        Some(i) => t.take(trimmed_len(t.take(i))),
        None => seq![],
    }
}

/// Name of a path: with trailing separators dropped, what comes after the
/// last separator (the whole rest when there is none).
pub open spec fn name_spec(s: Seq<char>) -> Seq<char> {
    let t = s.take(trimmed_len(s));
    match last_sep(t) {
        Some(i) => t.skip(i + 1),
        None => t,
    }
}

proof fn lemma_trimmed_len(s: Seq<char>)
    ensures
        0 <= trimmed_len(s) <= s.len(),
    decreases s.len(),
{
    if s.len() > 0 && is_sep(s.last()) {
        lemma_trimmed_len(s.drop_last());
    }
}

proof fn lemma_last_sep(s: Seq<char>)
    ensures
        last_sep(s) matches Some(i) ==> 0 <= i < s.len() && is_sep(s[i]),
    decreases s.len(),
{
    if s.len() > 0 && !is_sep(s.last()) {
        lemma_last_sep(s.drop_last());
    }
}

/// Length of the first `end` characters without their trailing separators.
fn trim_end(chars: &Vec<char>, end: usize) -> (r: usize)
    requires
        end <= chars.len(),
    ensures
        r == trimmed_len(chars@.take(end as int)),
{
    let mut e = end;
    while e > 0 && is_separator(chars[e - 1])
        invariant
            e <= end <= chars.len(),
            trimmed_len(chars@.take(end as int)) == trimmed_len(chars@.take(e as int)),
        decreases e,
    {
        assert(chars@.take(e as int).drop_last() =~= chars@.take(e - 1));
        e -= 1;
    }
    proof {
        if e > 0 {
            assert(chars@.take(e as int).last() == chars@[e - 1]);
        }
    }
    e
}

/// Index of the last separator among the first `end` characters.
fn find_last_sep(chars: &Vec<char>, end: usize) -> (r: Option<usize>)
    requires
        end <= chars.len(),
    ensures
        match last_sep(chars@.take(end as int)) {
            Some(i) => r == Some(i as usize) && i < end,
            None => r is None,
        },
{
    let mut e = end;
    while e > 0
        invariant
            e <= end <= chars.len(),
            last_sep(chars@.take(end as int)) == last_sep(chars@.take(e as int)),
        decreases e,
    {
        assert(chars@.take(e as int).drop_last() =~= chars@.take(e - 1));
        assert(chars@.take(e as int).last() == chars@[e - 1]);
        if is_separator(chars[e - 1]) {
            return Some(e - 1);
        }
        e -= 1;
    }
    None
}

/// Parent directory of a path; the empty string stands for the root.
/// Takes paths that are not canonical; the result has no trailing
/// separator.
pub fn parent_of(path: &str) -> (r: &str)
    ensures
        r@ == parent_spec(path@),
{
    let chars = chars_of(path);
    let ghost s = path@;
    let t_end = trim_end(&chars, chars.len());
    proof {
        lemma_trimmed_len(s);
        assert(s.take(s.len() as int) =~= s);
        lemma_last_sep(s.take(t_end as int));
    }
    match find_last_sep(&chars, t_end) {
        Some(i) => {
            let e = trim_end(&chars, i);
            proof {
                assert(s.take(t_end as int).take(i as int) =~= s.take(i as int));
                lemma_trimmed_len(s.take(i as int));
                assert(s.take(t_end as int).take(e as int) =~= s.subrange(0, e as int));
            }
            path.substring_char(0, e)
        },
        None => {
            let r = path.substring_char(0, 0);
            assert(r@ =~= Seq::<char>::empty());
            r
        },
    }
}

/// Last segment of a path; empty for the empty path. Takes paths that are
/// not canonical.
pub fn name_of(path: &str) -> (r: &str)
    ensures
        r@ == name_spec(path@),
{
    let chars = chars_of(path);
    let ghost s = path@;
    let t_end = trim_end(&chars, chars.len());
    proof {
        lemma_trimmed_len(s);
        assert(s.take(s.len() as int) =~= s);
        lemma_last_sep(s.take(t_end as int));
    }
    match find_last_sep(&chars, t_end) {
        Some(i) => {
            assert(s.take(t_end as int).skip(i + 1) =~= s.subrange(i + 1, t_end as int));
            path.substring_char(i + 1, t_end)
        },
        None => {
            assert(s.take(t_end as int) =~= s.subrange(0, t_end as int));
            path.substring_char(0, t_end)
        },
    }
}

/// Splits a canonical path at its first separator: the first segment and
/// the rest, if any.
pub fn split_path_once(path: &str) -> (r: (&str, Option<&str>))
    ensures
        match first_sep_from(path@, 0) {
            Some(i) => {
                &&& r.0@ == path@.take(i)
                &&& r.1 matches Some(rest) && rest@ == path@.skip(i + 1)
            },
            None => r.0@ == path@ && r.1 is None,
        },
{
    let chars = chars_of(path);
    let ghost s = path@;
    let n = chars.len();
    let mut i: usize = 0;
    while i < n
        invariant
            s == path@,
            chars@ == s,
            n == chars.len(),
            i <= n,
            first_sep_from(s, 0) == first_sep_from(s, i as int),
        decreases n - i,
    {
        if is_separator(chars[i]) {
            assert(s.take(i as int) =~= s.subrange(0, i as int));
            assert(s.skip(i + 1) =~= s.subrange(i + 1, n as int));
            return (path.substring_char(0, i), Some(path.substring_char(i + 1, n)));
        }
        i += 1;
    }
    assert(s =~= s.subrange(0, n as int));
    (path.substring_char(0, n), None)
}

/// A segment of a canonical path: non-empty, without separators, neither
/// `.` nor `..`.
pub open spec fn clean_segment(x: Seq<char>) -> bool {
    &&& x.len() > 0
    &&& forall|j: int| 0 <= j < x.len() ==> !is_sep(#[trigger] x[j])
    &&& x != seq!['.']
    &&& x != seq!['.', '.']
}

/// Characters without separators.
pub open spec fn no_sep(x: Seq<char>) -> bool {
    forall|j: int| 0 <= j < x.len() ==> !is_sep(#[trigger] x[j])
}

proof fn lemma_last_piece_no_sep(s: Seq<char>)
    ensures
        no_sep(last_piece(s)),
    decreases s.len(),
{
    if s.len() > 0 && !is_sep(s.last()) {
        lemma_last_piece_no_sep(s.drop_last());
        let p = last_piece(s.drop_last());
        assert forall|j: int| 0 <= j < p.push(s.last()).len() implies !is_sep(
            #[trigger] p.push(s.last())[j],
        ) by {
            if j < p.len() {
                assert(p.push(s.last())[j] == p[j]);
            }
        }
    }
}

proof fn lemma_closed_segments_clean(s: Seq<char>)
    ensures
        forall|k: int|
            0 <= k < closed_segments(s).len() ==> #[trigger] closed_segments(s)[k].len() > 0
                && no_sep(closed_segments(s)[k]),
    decreases s.len(),
{
    if s.len() > 0 {
        lemma_closed_segments_clean(s.drop_last());
        lemma_last_piece_no_sep(s.drop_last());
        let prev = closed_segments(s.drop_last());
        let piece = last_piece(s.drop_last());
        if is_sep(s.last()) && piece.len() > 0 {
            assert forall|k: int| 0 <= k < closed_segments(s).len() implies #[trigger] closed_segments(
                s,
            )[k].len() > 0 && no_sep(closed_segments(s)[k]) by {
                if k < prev.len() {
                    assert(closed_segments(s)[k] == prev[k]);
                } else {
                    assert(closed_segments(s)[k] == piece);
                }
            }
        }
    }
}

/// Every segment of a path is non-empty and has no separator.
proof fn lemma_segments_clean(s: Seq<char>)
    ensures
        forall|k: int|
            0 <= k < segments(s).len() ==> #[trigger] segments(s)[k].len() > 0 && no_sep(
                segments(s)[k],
            ),
{
    lemma_closed_segments_clean(s);
    lemma_last_piece_no_sep(s);
}

/// A resolved route holds clean segments only.
proof fn lemma_resolve_clean(segs: Seq<Seq<char>>)
    requires
        forall|k: int| 0 <= k < segs.len() ==> #[trigger] segs[k].len() > 0 && no_sep(segs[k]),
    ensures
        resolve(segs) matches Some(route) ==> forall|k: int|
            0 <= k < route.len() ==> clean_segment(#[trigger] route[k]),
    decreases segs.len(),
{
    if segs.len() > 0 {
        lemma_resolve_clean(segs.drop_last());
        assert(segs.drop_last().len() == segs.len() - 1);
        assert forall|k: int| 0 <= k < segs.drop_last().len() implies #[trigger] segs.drop_last()[k].len()
            > 0 && no_sep(segs.drop_last()[k]) by {
            assert(segs.drop_last()[k] == segs[k]);
        }
        lemma_resolve_clean(segs.drop_last());
        match resolve(segs.drop_last()) {
            Some(route) => {
                let name = segs.last();
                assert(name == segs[segs.len() - 1]);
                if name != seq!['.'] && name != seq!['.', '.'] {
                    assert forall|k: int| 0 <= k < route.push(name).len() implies clean_segment(
                        #[trigger] route.push(name)[k],
                    ) by {
                        if k < route.len() {
                            assert(route.push(name)[k] == route[k]);
                        }
                    }
                } else if name == seq!['.', '.'] && route.len() > 0 {
                    assert forall|k: int| 0 <= k < route.drop_last().len() implies clean_segment(
                        #[trigger] route.drop_last()[k],
                    ) by {
                        assert(route.drop_last()[k] == route[k]);
                    }
                }
            },
            None => {},
        }
    }
}

/// Appending characters without separators extends the last piece and
/// closes no segment.
proof fn lemma_append_no_sep(y: Seq<char>, z: Seq<char>)
    requires
        no_sep(z),
    ensures
        last_piece(y + z) == last_piece(y) + z,
        closed_segments(y + z) == closed_segments(y),
    decreases z.len(),
{
    if z.len() == 0 {
        assert(y + z =~= y);
        assert(last_piece(y) + z =~= last_piece(y));
    } else {
        let z0 = z.drop_last();
        assert forall|j: int| 0 <= j < z0.len() implies !is_sep(#[trigger] z0[j]) by {
            assert(z0[j] == z[j]);
        }
        lemma_append_no_sep(y, z0);
        assert((y + z).drop_last() =~= y + z0);
        assert((y + z).last() == z.last());
        assert(!is_sep(z[z.len() - 1]));
        assert(last_piece(y) + z =~= (last_piece(y) + z0).push(z.last()));
    }
}

/// The segments of a joined route are the route itself.
proof fn lemma_segments_of_join(route: Seq<Seq<char>>)
    requires
        forall|k: int| 0 <= k < route.len() ==> clean_segment(#[trigger] route[k]),
    ensures
        segments(join(route)) == route,
    decreases route.len(),
{
    if route.len() == 0 {
        assert(segments(join(route)) =~= route);
    } else if route.len() == 1 {
        let z = route[0];
        assert(clean_segment(route[0]));
        lemma_append_no_sep(Seq::<char>::empty(), z);
        assert(Seq::<char>::empty() + z =~= z);
        assert(segments(z) =~= route);
    } else {
        let init = route.drop_last();
        assert forall|k: int| 0 <= k < init.len() implies clean_segment(#[trigger] init[k]) by {
            assert(init[k] == route[k]);
        }
        lemma_segments_of_join(init);
        let y = join(init);
        let z = route.last();
        assert(clean_segment(route[route.len() - 1]));
        let ys = y.push('/');
        assert(y + seq!['/'] =~= ys);
        lemma_append_no_sep(ys, z);
        assert(ys.drop_last() =~= y);
        assert(last_piece(ys) =~= Seq::<char>::empty());
        assert(closed_segments(ys) == segments(y));
        assert(Seq::<char>::empty() + z =~= z);
        assert(join(route) == ys + z);
        assert(segments(join(route)) =~= route);
    }
}

/// A route of clean segments resolves to itself.
proof fn lemma_resolve_clean_route(route: Seq<Seq<char>>)
    requires
        forall|k: int| 0 <= k < route.len() ==> clean_segment(#[trigger] route[k]),
    ensures
        resolve(route) == Some(route),
    decreases route.len(),
{
    if route.len() > 0 {
        let init = route.drop_last();
        assert forall|k: int| 0 <= k < init.len() implies clean_segment(#[trigger] init[k]) by {
            assert(init[k] == route[k]);
        }
        lemma_resolve_clean_route(init);
        assert(clean_segment(route[route.len() - 1]));
        assert(init.push(route.last()) =~= route);
    }
}

/// Canonicalizing is idempotent: a canonical path is its own canonical
/// form.
pub proof fn law_canonical_idempotent(s: Seq<char>)
    requires
        canonical(s) is Some,
    ensures
        canonical(canonical(s)->Some_0) == canonical(s),
{
    lemma_segments_clean(s);
    lemma_resolve_clean(segments(s));
    let route = resolve(segments(s))->Some_0;
    lemma_segments_of_join(route);
    lemma_resolve_clean_route(route);
}

/// A found separator lies within the input.
pub proof fn lemma_first_sep_from(s: Seq<char>, i: int)
    ensures
        first_sep_from(s, i) matches Some(j) ==> 0 <= i <= j < s.len() && is_sep(s[j]) && forall|
            m: int,
        | i <= m < j ==> !is_sep(#[trigger] s[m]),
        first_sep_from(s, i) is None ==> forall|j: int|
            0 <= i <= j < s.len() ==> !is_sep(#[trigger] s[j]),
    decreases s.len() - i,
{
    if 0 <= i < s.len() {
        lemma_first_sep_from(s, i + 1);
    }
}

/// Text without separators from `k` on has no separator to find.
pub proof fn lemma_first_sep_none(s: Seq<char>, k: int)
    requires
        0 <= k,
        forall|j: int| k <= j < s.len() ==> !is_sep(#[trigger] s[j]),
    ensures
        first_sep_from(s, k) is None,
    decreases s.len() - k,
{
    if k < s.len() {
        lemma_first_sep_none(s, k + 1);
    }
}

/// The names along a path: the pieces between separators, empty ones
/// included, as splitting at the first separator again and again yields.
pub open spec fn pieces(s: Seq<char>) -> Seq<Seq<char>>
    decreases s.len(),
{
    match first_sep_from(s, 0) {
        Some(i) => {
            proof {
                lemma_first_sep_from(s, 0);
            }
            seq![s.take(i)] + pieces(s.skip(i + 1))
        },
        None => seq![s],
    }
}

/// Index of the first `/` of `s` at or after `i`.
pub open spec fn first_slash_from(s: Seq<char>, i: int) -> Option<int>
    decreases s.len() - i,
{
    if i < 0 || i >= s.len() {
        None
    } else if s[i] == '/' {
        Some(i)
    } else {
        first_slash_from(s, i + 1)
    }
}

pub proof fn lemma_first_slash_from(s: Seq<char>, i: int)
    ensures
        first_slash_from(s, i) matches Some(j) ==> 0 <= i <= j < s.len() && s[j] == '/',
    decreases s.len() - i,
{
    if 0 <= i < s.len() {
        lemma_first_slash_from(s, i + 1);
    }
}

/// A path has at least one piece; splitting at the first separator
/// splits off the first piece.
pub proof fn lemma_pieces(s: Seq<char>)
    ensures
        pieces(s).len() >= 1,
        match first_sep_from(s, 0) {
            Some(i) => pieces(s) == seq![s.take(i)] + pieces(s.skip(i + 1)),
            None => pieces(s) == seq![s],
        },
    decreases s.len(),
{
    lemma_first_sep_from(s, 0);
    match first_sep_from(s, 0) {
        Some(i) => {
            lemma_pieces(s.skip(i + 1));
        },
        None => {},
    }
}

/// The pieces of text between `/` characters, empty ones included.
pub open spec fn slash_pieces(s: Seq<char>) -> Seq<Seq<char>>
    decreases s.len(),
{
    match first_slash_from(s, 0) {
        Some(i) => {
            proof {
                lemma_first_slash_from(s, 0);
            }
            seq![s.take(i)] + slash_pieces(s.skip(i + 1))
        },
        None => seq![s],
    }
}

/// A path without backslashes and without empty pieces: the shape of a
/// canonical path.
pub open spec fn plain_path(s: Seq<char>) -> bool {
    &&& forall|i: int| 0 <= i < s.len() ==> s[i] != '\\'
    &&& forall|k: int| 0 <= k < pieces(s).len() ==> (#[trigger] pieces(s)[k]).len() > 0
}

proof fn lemma_first_sep_is_slash(s: Seq<char>, i: int)
    requires
        forall|j: int| 0 <= j < s.len() ==> s[j] != '\\',
        0 <= i,
    ensures
        first_sep_from(s, i) == first_slash_from(s, i),
    decreases s.len() - i,
{
    if i < s.len() {
        lemma_first_sep_is_slash(s, i + 1);
    }
}

/// Without backslashes, the pieces between separators are the pieces
/// between `/` characters.
pub proof fn lemma_plain_pieces(s: Seq<char>)
    requires
        forall|j: int| 0 <= j < s.len() ==> s[j] != '\\',
    ensures
        pieces(s) == slash_pieces(s),
    decreases s.len(),
{
    lemma_first_sep_is_slash(s, 0);
    lemma_first_sep_from(s, 0);
    match first_sep_from(s, 0) {
        Some(i) => {
            let rest = s.skip(i + 1);
            assert forall|j: int| 0 <= j < rest.len() implies rest[j] != '\\' by {
                assert(rest[j] == s[i + 1 + j]);
            }
            lemma_plain_pieces(rest);
        },
        None => {},
    }
}

/// The rest of a plain path after its first separator is a plain path.
pub proof fn lemma_plain_rest(s: Seq<char>, i: int)
    requires
        plain_path(s),
        first_sep_from(s, 0) == Some(i),
    ensures
        plain_path(s.skip(i + 1)),
        s.skip(i + 1).len() > 0,
        pieces(s) == seq![s.take(i)] + pieces(s.skip(i + 1)),
        s.take(i).len() > 0,
{
    lemma_pieces(s);
    lemma_first_sep_from(s, 0);
    let rest = s.skip(i + 1);
    lemma_pieces(rest);
    assert forall|j: int| 0 <= j < rest.len() implies rest[j] != '\\' by {
        assert(rest[j] == s[i + 1 + j]);
    }
    assert forall|k: int| 0 <= k < pieces(rest).len() implies (#[trigger] pieces(rest)[k]).len()
        > 0 by {
        assert(pieces(s)[k + 1] == pieces(rest)[k]);
    }
    assert(pieces(s)[0] == s.take(i));
    if rest.len() == 0 {
        lemma_first_sep_from(rest, 0);
        assert(pieces(rest) == seq![rest]);
        assert(pieces(s)[1] == rest);
    }
}

/// Characters without separators after `y` leave its last separator the
/// last one.
proof fn lemma_last_sep_after(y: Seq<char>, z: Seq<char>)
    requires
        no_sep(z),
    ensures
        last_sep(y + z) == last_sep(y),
    decreases z.len(),
{
    if z.len() == 0 {
        assert(y + z =~= y);
    } else {
        let z0 = z.drop_last();
        assert forall|j: int| 0 <= j < z0.len() implies !is_sep(#[trigger] z0[j]) by {
            assert(z0[j] == z[j]);
        }
        lemma_last_sep_after(y, z0);
        assert((y + z).drop_last() =~= y + z0);
        assert((y + z).last() == z[z.len() - 1]);
    }
}

/// A route of clean segments joins to a non-empty path that does not end
/// in a separator.
proof fn lemma_join_tail(route: Seq<Seq<char>>)
    requires
        route.len() >= 1,
        forall|k: int| 0 <= k < route.len() ==> clean_segment(#[trigger] route[k]),
    ensures
        join(route).len() > 0,
        !is_sep(join(route).last()),
{
    let z = route.last();
    assert(clean_segment(route[route.len() - 1]));
    assert(!is_sep(z[z.len() - 1]));
    if route.len() > 1 {
        let y = join(route.drop_last());
        assert((y + seq!['/'] + z).last() == z.last());
    }
}

/// A canonical path other than the root is its parent, `/` and its name
/// when it holds a `/`; otherwise it is a name alone, right below the root.
pub proof fn law_parent_name_round_trip(p: Seq<char>)
    requires
        canonical(p) == Some(p),
        p.len() > 0,
    ensures
        if p.contains('/') {
            parent_spec(p) + seq!['/'] + name_spec(p) == p
        } else {
            parent_spec(p) == Seq::<char>::empty() && name_spec(p) == p
        },
{
    lemma_segments_clean(p);
    lemma_resolve_clean(segments(p));
    let route = resolve(segments(p))->Some_0;
    assert(join(route) == p);
    assert(route.len() > 0);
    lemma_join_tail(route);
    assert(trimmed_len(p) == p.len());
    assert(p.take(p.len() as int) =~= p);
    let z = route.last();
    assert(clean_segment(route[route.len() - 1]));
    if route.len() == 1 {
        assert(p == z);
        lemma_last_sep_after(Seq::<char>::empty(), z);
        assert(Seq::<char>::empty() + z =~= z);
        assert(!p.contains('/')) by {
            if p.contains('/') {
                let i = choose|i: int| 0 <= i < p.len() && p[i] == '/';
                assert(!is_sep(z[i]));
            }
        }
    } else {
        let init = route.drop_last();
        assert forall|k: int| 0 <= k < init.len() implies clean_segment(#[trigger] init[k]) by {
            assert(init[k] == route[k]);
        }
        lemma_join_tail(init);
        let y = join(init);
        let ys = y.push('/');
        assert(p =~= ys + z);
        lemma_last_sep_after(ys, z);
        assert(last_sep(ys) == Some(y.len() as int));
        assert(p.take(y.len() as int) =~= y);
        assert(trimmed_len(y) == y.len());
        assert(y.take(y.len() as int) =~= y);
        assert(p.skip(y.len() as int + 1) =~= z);
        assert(p[y.len() as int] == '/');
        assert(p.contains('/'));
        assert(y + seq!['/'] + z =~= p);
    }
}

} // verus!
