//! Paths as text: segments, file names and extensions, and the way
//! from places in the content directory to public web paths.
//!
//! A path is a sequence of characters in which `/` separates segments. Nothing
//! here touches a disk, and `.` and `..` are ordinary segments.

use vstd::prelude::*;
use crate::error::ContentError;
use crate::text::{
    append, chars_of, cut, ends_with, find, has_suffix, matches_at, occurs_at, position,
    starts_with,
};

verus! {

/// The non-empty segments of `path`, in order.
///
/// Read from the left, a separator ends the segment before it, a character
/// after another character lengthens the last segment, and any other
/// character starts a new one.
pub open spec fn segments(path: Seq<char>) -> Seq<Seq<char>>
    decreases path.len(),
{
    if path.len() == 0 {
        Seq::empty()
    } else {
        let before = segments(path.drop_last());
        let c = path.last();
        if c == '/' {
            before
        } else if path.len() >= 2 && path[path.len() - 2] != '/' {
            before.drop_last().push(before.last().push(c))
        } else {
            before.push(seq![c])
        }
    }
}

/// The segments written out with one `/` between neighbours.
pub open spec fn join(parts: Seq<Seq<char>>) -> Seq<char>
    decreases parts.len(),
{
    if parts.len() == 0 {
        Seq::empty()
    } else if parts.len() == 1 {
        parts[0]
    } else {
        join(parts.drop_last()) + seq!['/'] + parts.last()
    }
}

/// A segment is clean when it is not empty and holds no separator.
pub open spec fn clean_segment(part: Seq<char>) -> bool {
    &&& part.len() > 0
    &&& forall|i: int| 0 <= i < part.len() ==> part[i] != '/'
}

/// Every segment of the list is clean.
pub open spec fn clean_segments(parts: Seq<Seq<char>>) -> bool {
    forall|k: int| 0 <= k < parts.len() ==> clean_segment(#[trigger] parts[k])
}

/// The one spelling of the place that `path` names: a leading `/` if `path`
/// has one, then its segments with single separators, and no trailing `/`.
pub open spec fn normalized(path: Seq<char>) -> Seq<char> {
    if path.len() > 0 && path[0] == '/' {
        seq!['/'] + join(segments(path))
    } else {
        join(segments(path))
    }
}

/// Two spellings name the same place.
pub open spec fn same_place(a: Seq<char>, b: Seq<char>) -> bool {
    normalized(a) == normalized(b)
}

/// What `segments` yields after a prefix that ends at a separator (or is
/// empty) is followed by a run of characters free of separators.
proof fn segments_of_run(path: Seq<char>, start: int, end: int)
    requires
        0 <= start <= end <= path.len(),
        start == 0 || path[start - 1] == '/',
        forall|i: int| start <= i < end ==> path[i] != '/',
    ensures
        segments(path.take(end)) == if start < end {
            segments(path.take(start)).push(path.subrange(start, end))
        } else {
            segments(path.take(start))
        },
    decreases end - start,
{
    if start < end {
        let whole = path.take(end);
        assert(whole.drop_last() =~= path.take(end - 1));
        assert(whole.last() == path[end - 1]);
        segments_of_run(path, start, end - 1);
        let before = segments(path.take(end - 1));
        if start < end - 1 {
            assert(whole.len() >= 2 && whole[whole.len() - 2] == path[end - 2]);
            assert(before == segments(path.take(start)).push(path.subrange(start, end - 1)));
            assert(before.drop_last() =~= segments(path.take(start)));
            assert(before.last().push(path[end - 1]) =~= path.subrange(start, end));
        } else {
            assert(whole.len() >= 2 ==> whole[whole.len() - 2] == '/');
            assert(seq![path[end - 1]] =~= path.subrange(start, end));
        }
    }
}

/// A separator adds nothing to the segments before it.
proof fn segments_after_separator(path: Seq<char>, end: int)
    requires
        0 <= end < path.len(),
        path[end] == '/',
    ensures
        segments(path.take(end + 1)) == segments(path.take(end)),
{
    assert(path.take(end + 1).drop_last() =~= path.take(end));
}

/// Every segment that `segments` yields is non-empty and free of separators.
pub proof fn segments_are_clean(path: Seq<char>)
    ensures
        clean_segments(segments(path)),
    decreases path.len(),
{
    if path.len() > 0 {
        segments_are_clean(path.drop_last());
        let before = segments(path.drop_last());
        let c = path.last();
        if c != '/' {
            if path.len() >= 2 && path[path.len() - 2] != '/' {
                segments_end_in_last_char(path.drop_last());
                let after = before.drop_last().push(before.last().push(c));
                assert forall|k: int| 0 <= k < after.len() implies clean_segment(
                    #[trigger] after[k],
                ) by {
                    if k < after.len() - 1 {
                        assert(after[k] == before[k]);
                    } else {
                        assert(clean_segment(before.last()));
                    }
                }
            } else {
                let after = before.push(seq![c]);
                assert forall|k: int| 0 <= k < after.len() implies clean_segment(
                    #[trigger] after[k],
                ) by {
                    if k < after.len() - 1 {
                        assert(after[k] == before[k]);
                    }
                }
            }
        }
    }
}

/// A path that ends in a character other than `/` has a last segment.
proof fn segments_end_in_last_char(path: Seq<char>)
    requires
        path.len() > 0,
        path.last() != '/',
    ensures
        segments(path).len() > 0,
    decreases path.len(),
{
    if path.len() >= 2 && path[path.len() - 2] != '/' {
        assert(path.drop_last().last() == path[path.len() - 2]);
        segments_end_in_last_char(path.drop_last());
    }
}

/// The non-empty segments of `path`, in order.
pub fn split_segments(path: &str) -> (parts: Vec<String>)
    ensures
        parts.deep_view() == segments(path@),
{
    let chars = chars_of(path);
    let mut parts: Vec<String> = Vec::new();
    let mut start: usize = 0;
    let mut i: usize = 0;
    while i < chars.len()
        invariant
            chars@ == path@,
            start <= i <= chars.len(),
            start == 0 || chars@[start - 1] == '/',
            forall|k: int| start <= k < i ==> chars@[k] != '/',
            parts.deep_view() == segments(path@.take(start as int)),
        decreases chars.len() - i,
    {
        if chars[i] == '/' {
            proof {
                segments_of_run(path@, start as int, i as int);
                segments_after_separator(path@, i as int);
            }
            if start < i {
                let ghost before = parts.deep_view();
                parts.push(cut(path, start, i));
                assert(parts.deep_view() =~= before.push(path@.subrange(start as int, i as int)));
            }
            start = i + 1;
        }
        i = i + 1;
    }
    proof {
        segments_of_run(path@, start as int, i as int);
        assert(path@.take(i as int) =~= path@);
    }
    if start < i {
        let ghost before = parts.deep_view();
        parts.push(cut(path, start, i));
        assert(parts.deep_view() =~= before.push(path@.subrange(start as int, i as int)));
    }
    parts
}

/// The segments written out with one `/` between neighbours.
pub fn join_segments(parts: &Vec<String>) -> (path: String)
    ensures
        path@ == join(parts.deep_view()),
{
    let mut path = String::new();
    let mut k: usize = 0;
    while k < parts.len()
        invariant
            k <= parts.len(),
            path@ == join(parts.deep_view().take(k as int)),
        decreases parts.len() - k,
    {
        proof {
            let done = parts.deep_view().take(k + 1);
            assert(done.drop_last() =~= parts.deep_view().take(k as int));
            assert(done.last() == parts@[k as int]@);
        }
        if k > 0 {
            path.append("/");
            proof {
                reveal_strlit("/");
                assert("/"@ =~= seq!['/']);
            }
        }
        path.append(parts[k].as_str());
        proof {
            if k == 0 {
                assert(path@ =~= parts@[0]@);
            }
        }
        k = k + 1;
    }
    proof {
        assert(parts.deep_view().take(k as int) =~= parts.deep_view());
    }
    path
}

/// The one spelling of the place that `path` names.
pub fn normalize(path: &str) -> (r: String)
    ensures
        r@ == normalized(path@),
{
    let parts = split_segments(path);
    let joined = join_segments(&parts);
    let chars = chars_of(path);
    if chars.len() > 0 && chars[0] == '/' {
        proof {
            reveal_strlit("/");
            assert("/"@ =~= seq!['/']);
        }
        append("/", joined.as_str())
    } else {
        joined
    }
}

/// Where the file name of `path` begins: just after its last separator, or
/// at its start when it has none.
pub open spec fn name_start(path: Seq<char>) -> int
    decreases path.len(),
{
    if path.len() == 0 {
        0
    } else if path.last() == '/' {
        path.len() as int
    } else {
        name_start(path.drop_last())
    }
}

/// The file name of `path`: what follows its last separator.
pub open spec fn file_name(path: Seq<char>) -> Seq<char> {
    path.skip(name_start(path))
}

/// The position of the last `.` of `name`, or -1 when it has none.
pub open spec fn last_dot(name: Seq<char>) -> int
    decreases name.len(),
{
    if name.len() == 0 {
        -1
    } else if name.last() == '.' {
        name.len() - 1
    } else {
        last_dot(name.drop_last())
    }
}

/// A file name has an extension when a `.` stands in it after its first
/// character: a leading `.` marks a hidden file, not an extension.
pub open spec fn has_extension(name: Seq<char>) -> bool {
    last_dot(name) > 0
}

/// The extension of a file name: what follows its last `.`.
pub open spec fn extension(name: Seq<char>) -> Option<Seq<char>> {
    if has_extension(name) {
        Some(name.skip(last_dot(name) + 1))
    } else {
        None
    }
}

/// The stem of a file name: the name without its extension and the `.` before it.
pub open spec fn file_stem(name: Seq<char>) -> Seq<char> {
    if has_extension(name) {
        name.take(last_dot(name))
    } else {
        name
    }
}

/// The path names a content file: the extension of its file name is `md`.
pub open spec fn is_content_path(path: Seq<char>) -> bool {
    extension(file_name(path)) == Some(seq!['m', 'd'])
}

/// The path names a sidecar: the extension of its file name ends in `meta`.
pub open spec fn is_sidecar_path(path: Seq<char>) -> bool {
    match extension(file_name(path)) {
        Some(ext) => ends_with(ext, seq!['m', 'e', 't', 'a']),
        None => false,
    }
}

/// The path of the sidecar that belongs to `path`. A trailing `.md` gives way
/// to `suffix`, also where `.md` is the whole file name. In any other name
/// the extension, with its `.`, gives way to it, and a name without an
/// extension gets it appended.
pub open spec fn sidecar_path(path: Seq<char>, suffix: Seq<char>) -> Seq<char> {
    let name = file_name(path);
    if ends_with(path, seq!['.', 'm', 'd']) {
        path.take(path.len() - 3) + suffix
    } else if has_extension(name) {
        path.take(name_start(path) + last_dot(name)) + suffix
    } else {
        path + suffix
    }
}

/// `path` with one trailing `/` taken off, if it has one.
pub open spec fn without_trailing_separator(path: Seq<char>) -> Seq<char> {
    if path.len() > 0 && path.last() == '/' {
        path.drop_last()
    } else {
        path
    }
}

/// `path` without the base prefix. The prefix counts with or without its
/// trailing `/`: what is taken off the front of `path` is the prefix without
/// it. A path that does not begin with the prefix comes back unchanged.
pub open spec fn stripped_of_prefix(path: Seq<char>, base: Seq<char>) -> Seq<char> {
    let bare = without_trailing_separator(base);
    if starts_with(path, bare) {
        path.skip(bare.len() as int)
    } else {
        path
    }
}

/// What is stripped off a path is the prefix without its trailing `/`, once
/// and from the front: putting it back gives the path again.
pub proof fn stripped_prefix_is_restored(path: Seq<char>, base: Seq<char>)
    ensures
        starts_with(path, without_trailing_separator(base)) ==> without_trailing_separator(base)
            + stripped_of_prefix(path, base) == path,
        !starts_with(path, without_trailing_separator(base)) ==> stripped_of_prefix(path, base)
            == path,
{
    let bare = without_trailing_separator(base);
    if starts_with(path, bare) {
        assert(path.subrange(0, bare.len() as int) + path.skip(bare.len() as int) =~= path);
    }
}

/// `path` without a trailing `.md`.
pub open spec fn without_content_suffix(path: Seq<char>) -> Seq<char> {
    if ends_with(path, seq!['.', 'm', 'd']) {
        path.take(path.len() - 3)
    } else {
        path
    }
}

/// The public web path of a place in the content directory: everything up to
/// and including the leftmost occurrence of the base directory gives way to a
/// single `/`, the segments that follow stand with single separators between
/// them, and a trailing `.md` goes. There is no web path where the base
/// directory does not occur.
pub open spec fn web_path(path: Seq<char>, base: Seq<char>) -> Option<Seq<char>> {
    match position(path, base) {
        Some(at) => Some(
            without_content_suffix(seq!['/'] + join(segments(path.skip(at + base.len())))),
        ),
        None => None,
    }
}

/// `name_start` is a position of the path, with a separator just before it
/// unless it is the start, and with no separator from it on.
pub proof fn name_start_is_after_last_separator(path: Seq<char>)
    ensures
        0 <= name_start(path) <= path.len(),
        name_start(path) == 0 || path[name_start(path) - 1] == '/',
        forall|i: int| name_start(path) <= i < path.len() ==> path[i] != '/',
    decreases path.len(),
{
    if path.len() > 0 && path.last() != '/' {
        let init = path.drop_last();
        name_start_is_after_last_separator(init);
        assert forall|i: int| name_start(path) <= i < path.len() implies path[i] != '/' by {
            if i < init.len() {
                assert(init[i] == path[i]);
            }
        }
    }
}

/// `last_dot` is -1 or the position of a `.`, and no `.` stands after it.
pub proof fn last_dot_is_last(name: Seq<char>)
    ensures
        -1 <= last_dot(name) < name.len(),
        last_dot(name) >= 0 ==> name[last_dot(name)] == '.',
        forall|i: int| last_dot(name) < i < name.len() ==> name[i] != '.',
    decreases name.len(),
{
    if name.len() > 0 && name.last() != '.' {
        let init = name.drop_last();
        last_dot_is_last(init);
        assert forall|i: int| last_dot(name) < i < name.len() implies name[i] != '.' by {
            if i < init.len() {
                assert(init[i] == name[i]);
            }
        }
    }
}

/// Where the file name of `path` begins.
fn find_name_start(path: &Vec<char>) -> (start: usize)
    ensures
        start == name_start(path@),
        start <= path.len(),
{
    let mut end: usize = path.len();
    proof {
        assert(path@.take(end as int) =~= path@);
    }
    while end > 0
        invariant
            end <= path.len(),
            name_start(path@) == name_start(path@.take(end as int)),
        decreases end,
    {
        proof {
            assert(path@.take(end as int).drop_last() =~= path@.take(end - 1));
            name_start_is_after_last_separator(path@);
        }
        if path[end - 1] == '/' {
            return end;
        }
        end = end - 1;
    }
    0
}

/// The position of the last `.` at or after `from`, counted from `from`; `None` for -1.
fn find_last_dot(path: &Vec<char>, from: usize) -> (dot: Option<usize>)
    requires
        from <= path.len(),
    ensures
        match dot {
            Some(d) => d == last_dot(path@.skip(from as int)) && d < path.len() - from,
            None => last_dot(path@.skip(from as int)) == -1,
        },
{
    let ghost name = path@.skip(from as int);
    let mut end: usize = path.len();
    proof {
        assert(name.take(end - from) =~= name);
    }
    while end > from
        invariant
            from <= end <= path.len(),
            name == path@.skip(from as int),
            last_dot(name) == last_dot(name.take(end - from)),
        decreases end - from,
    {
        proof {
            assert(name.take(end - from).drop_last() =~= name.take(end - 1 - from));
            assert(name.take(end - from).last() == path@[end - 1]);
        }
        if path[end - 1] == '.' {
            return Some(end - 1 - from);
        }
        end = end - 1;
    }
    None
}

/// The stem of the file name of `path`.
pub fn path_file_stem(path: &str) -> (stem: String)
    ensures
        stem@ == file_stem(file_name(path@)),
{
    let chars = chars_of(path);
    let start = find_name_start(&chars);
    let ghost name = path@.skip(start as int);
    match find_last_dot(&chars, start) {
        Some(d) => {
            if d > 0 {
                assert(name.take(d as int) =~= path@.subrange(start as int, start + d));
                cut(path, start, start + d)
            } else {
                assert(name =~= path@.subrange(start as int, chars.len() as int));
                cut(path, start, chars.len())
            }
        },
        None => {
            assert(name =~= path@.subrange(start as int, chars.len() as int));
            cut(path, start, chars.len())
        },
    }
}

/// The extension of the file name of `path`, if it has one.
pub fn path_extension(path: &str) -> (ext: Option<String>)
    ensures
        match ext {
            Some(e) => extension(file_name(path@)) == Some(e@),
            None => extension(file_name(path@)) is None,
        },
{
    let chars = chars_of(path);
    let start = find_name_start(&chars);
    let ghost name = path@.skip(start as int);
    match find_last_dot(&chars, start) {
        Some(d) => {
            if d > 0 {
                assert(name.skip(d + 1) =~= path@.subrange(start + d + 1, chars.len() as int));
                Some(cut(path, start + d + 1, chars.len()))
            } else {
                None
            }
        },
        None => None,
    }
}

/// Whether `path` names a content file.
pub fn has_content_extension(path: &str) -> (r: bool)
    ensures
        r == is_content_path(path@),
{
    match path_extension(path) {
        Some(ext) => {
            let e = chars_of(ext.as_str());
            let md = chars_of("md");
            proof {
                reveal_strlit("md");
                assert("md"@ =~= seq!['m', 'd']);
            }
            let same = e.len() == 2 && matches_at(&e, &md, 0);
            proof {
                if e.len() == 2 {
                    assert(e@.subrange(0, 2) =~= e@);
                }
            }
            same
        },
        None => false,
    }
}

/// Whether `path` names a sidecar.
pub fn has_sidecar_extension(path: &str) -> (r: bool)
    ensures
        r == is_sidecar_path(path@),
{
    match path_extension(path) {
        Some(ext) => {
            let e = chars_of(ext.as_str());
            let meta = chars_of("meta");
            proof {
                reveal_strlit("meta");
                assert("meta"@ =~= seq!['m', 'e', 't', 'a']);
            }
            has_suffix(&e, &meta)
        },
        None => false,
    }
}

/// The path of the sidecar with the given suffix that belongs to `path`.
pub fn sidecar_path_for(path: &str, suffix: &str) -> (r: String)
    ensures
        r@ == sidecar_path(path@, suffix@),
{
    let chars = chars_of(path);
    let md = chars_of(".md");
    proof {
        reveal_strlit(".md");
        assert(".md"@ =~= seq!['.', 'm', 'd']);
    }
    if has_suffix(&chars, &md) {
        let head = cut(path, 0, chars.len() - 3);
        assert(path@.subrange(0, chars.len() - 3) =~= path@.take(chars.len() - 3));
        return append(head.as_str(), suffix);
    }
    let start = find_name_start(&chars);
    match find_last_dot(&chars, start) {
        Some(d) => {
            if d > 0 {
                let head = cut(path, 0, start + d);
                assert(path@.subrange(0, start + d) =~= path@.take(start + d));
                append(head.as_str(), suffix)
            } else {
                append(path, suffix)
            }
        },
        None => append(path, suffix),
    }
}

/// `path` without the base prefix: see `stripped_of_prefix`. A path that does
/// not begin with the prefix is no fault and comes back unchanged.
pub fn strip_content_prefix(path: &str, base: &str) -> (r: String)
    ensures
        r@ == stripped_of_prefix(path@, base@),
{
    let p = chars_of(path);
    let mut b = chars_of(base);
    if b.len() > 0 && b[b.len() - 1] == '/' {
        b.pop();
    }
    assert(b@ =~= without_trailing_separator(base@));
    if matches_at(&p, &b, 0) {
        assert(path@.skip(b.len() as int) =~= path@.subrange(b.len() as int, p.len() as int));
        cut(path, b.len(), p.len())
    } else {
        String::from_str(path)
    }
}

/// The public web path of a place in the content directory: see `web_path`.
/// That the base directory does not occur in the path is a fault of the
/// configuration, not of the one file.
pub fn localpath_to_webpath(this_path: &str, base_dir: &str) -> (r: Result<String, ContentError>)
    ensures
        match r {
            Ok(web) => web_path(this_path@, base_dir@) == Some(web@),
            Err(e) => e == ContentError::PathFormat && web_path(this_path@, base_dir@) is None,
        },
{
    let p = chars_of(this_path);
    let b = chars_of(base_dir);
    match find(&p, &b) {
        None => Err(ContentError::PathFormat),
        Some(at) => {
            let total = p.len();
            let width = b.len();
            assert(occurs_at(p@, b@, at as int));
            assert(at + width <= total);
            let offset = at + width;
            let rest = cut(this_path, offset, total);
            assert(rest@ =~= this_path@.skip(offset as int));
            proof {
                reveal_strlit("/");
                assert("/"@ =~= seq!['/']);
            }
            let parts = split_segments(rest.as_str());
            let tidy = join_segments(&parts);
            let whole = append("/", tidy.as_str());
            let w = chars_of(whole.as_str());
            let md = chars_of(".md");
            proof {
                reveal_strlit(".md");
                assert(".md"@ =~= seq!['.', 'm', 'd']);
            }
            if has_suffix(&w, &md) {
                assert(whole@.subrange(0, w.len() - 3) =~= whole@.take(w.len() - 3));
                Ok(cut(whole.as_str(), 0, w.len() - 3))
            } else {
                Ok(whole)
            }
        },
    }
}

/// The path starts at the root of the file system.
pub open spec fn is_absolute(path: Seq<char>) -> bool {
    path.len() > 0 && path[0] == '/'
}

/// The last segment of a path: the name of what the path leads to.
pub open spec fn last_segment(path: Seq<char>) -> Seq<char> {
    segments(path).last()
}

/// `path` names something that lies directly in the directory `dir`.
pub open spec fn is_child_of(path: Seq<char>, dir: Seq<char>) -> bool {
    &&& is_absolute(path) == is_absolute(dir)
    &&& segments(path).len() == segments(dir).len() + 1
    &&& segments(path).drop_last() == segments(dir)
}

/// The path of the entry `name` of the directory `dir`: the two with one
/// separator between them, which `dir` may bring along; just `name` where
/// `dir` is empty.
pub open spec fn entry_path(dir: Seq<char>, name: Seq<char>) -> Seq<char> {
    if dir.len() == 0 || dir.last() == '/' {
        dir + name
    } else {
        dir + seq!['/'] + name
    }
}

/// Whether two lists of strings hold the same texts.
fn same_texts(a: &Vec<String>, b: &Vec<String>, n: usize) -> (r: bool)
    requires
        n <= a.len(),
        n <= b.len(),
    ensures
        r == (a.deep_view().take(n as int) == b.deep_view().take(n as int)),
{
    let mut i: usize = 0;
    while i < n
        invariant
            i <= n,
            n <= a.len(),
            n <= b.len(),
            forall|k: int| 0 <= k < i ==> a@[k]@ == b@[k]@,
        decreases n - i,
    {
        if a[i] != b[i] {
            assert(a.deep_view().take(n as int)[i as int] != b.deep_view().take(n as int)[i as int]);
            return false;
        }
        i = i + 1;
    }
    assert(a.deep_view().take(n as int) =~= b.deep_view().take(n as int));
    true
}

/// The name under which `path` lies directly in the directory `dir`, if it does.
pub fn child_name(path: &str, dir: &str) -> (name: Option<String>)
    ensures
        match name {
            Some(n) => is_child_of(path@, dir@) && n@ == last_segment(path@),
            None => !is_child_of(path@, dir@),
        },
{
    let p = chars_of(path);
    let d = chars_of(dir);
    let p_absolute = p.len() > 0 && p[0] == '/';
    let d_absolute = d.len() > 0 && d[0] == '/';
    if p_absolute != d_absolute {
        return None;
    }
    let p_parts = split_segments(path);
    let d_parts = split_segments(dir);
    assert(p_parts.deep_view().len() == p_parts.len());
    assert(d_parts.deep_view().len() == d_parts.len());
    if d_parts.len() == usize::MAX || p_parts.len() != d_parts.len() + 1 {
        return None;
    }
    let n = d_parts.len();
    let same = same_texts(&p_parts, &d_parts, n);
    proof {
        assert(p_parts.deep_view().take(n as int) =~= segments(path@).drop_last());
        assert(d_parts.deep_view().take(n as int) =~= segments(dir@));
    }
    if same {
        Some(p_parts[n].clone())
    } else {
        None
    }
}

/// The path of the entry `name` of the directory `dir`.
pub fn entry_path_of(dir: &str, name: &str) -> (r: String)
    ensures
        r@ == entry_path(dir@, name@),
{
    let d = chars_of(dir);
    if d.len() == 0 || d[d.len() - 1] == '/' {
        append(dir, name)
    } else {
        proof {
            reveal_strlit("/");
            assert("/"@ =~= seq!['/']);
        }
        let mut r = String::from_str(dir);
        r.append("/");
        r.append(name);
        r
    }
}

/// A path is tidy when no separator stands at its start or its end and no
/// two separators stand side by side: it has no empty segment.
pub open spec fn is_tidy(path: Seq<char>) -> bool {
    &&& path.len() > 0 ==> path[0] != '/' && path.last() != '/'
    &&& forall|i: int| 0 <= i < path.len() - 1 ==> !(#[trigger] path[i] == '/' && path[i + 1] == '/')
}

/// Clean segments join to a tidy path, and to an empty one only if there are
/// none.
pub proof fn join_of_clean_is_tidy(parts: Seq<Seq<char>>)
    requires
        clean_segments(parts),
    ensures
        is_tidy(join(parts)),
        parts.len() > 0 ==> join(parts).len() > 0,
    decreases parts.len(),
{
    if parts.len() == 1 {
        assert(clean_segment(parts[0]));
    } else if parts.len() > 1 {
        let init = parts.drop_last();
        assert forall|k: int| 0 <= k < init.len() implies clean_segment(#[trigger] init[k]) by {
            assert(init[k] == parts[k]);
        }
        join_of_clean_is_tidy(init);
        let head = join(init);
        let tail = parts.last();
        assert(clean_segment(tail));
        let whole = join(parts);
        assert(whole == head + seq!['/'] + tail);
        assert forall|i: int| 0 <= i < whole.len() - 1 implies !(#[trigger] whole[i] == '/'
            && whole[i + 1] == '/') by {
            if i + 1 < head.len() {
                assert(whole[i] == head[i] && whole[i + 1] == head[i + 1]);
            } else if i + 1 == head.len() {
                assert(whole[i] == head.last());
            } else if i == head.len() {
                assert(whole[i + 1] == tail[0]);
            } else {
                assert(whole[i] == tail[i - head.len() - 1]);
            }
        }
        assert(whole[0] == head[0]);
        assert(whole.last() == tail.last());
    }
}

/// The path of an entry has the directory's segments and then the entry's
/// name, and starts at the root exactly if the directory's path does.
pub proof fn segments_of_entry_path(dir: Seq<char>, name: Seq<char>)
    requires
        clean_segment(name),
    ensures
        segments(entry_path(dir, name)) == segments(dir).push(name),
        is_absolute(entry_path(dir, name)) == is_absolute(dir),
{
    let path = entry_path(dir, name);
    let start = path.len() - name.len();
    let head = path.take(start);
    assert forall|i: int| start <= i < path.len() implies path[i] != '/' by {
        assert(path[i] == name[i - start]);
    }
    segments_of_run(path, start, path.len() as int);
    assert(path.take(path.len() as int) =~= path);
    assert(path.subrange(start, path.len() as int) =~= name);
    if dir.len() == 0 || dir.last() == '/' {
        assert(head =~= dir);
    } else {
        assert(head =~= dir + seq!['/']);
        segments_after_separator(head, dir.len() as int);
        assert(head.take(dir.len() as int + 1) =~= head);
        assert(head.take(dir.len() as int) =~= dir);
    }
}

/// What lies directly in a directory stands at the path of the entry that
/// bears its name.
pub proof fn child_is_at_entry_path(path: Seq<char>, dir: Seq<char>)
    requires
        is_child_of(path, dir),
    ensures
        same_place(entry_path(dir, last_segment(path)), path),
{
    segments_are_clean(path);
    let name = last_segment(path);
    assert(clean_segment(name));
    segments_of_entry_path(dir, name);
    assert(segments(path) =~= segments(path).drop_last().push(name));
}

} // verus!
