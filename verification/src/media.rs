use vstd::prelude::*;
use vstd::string::StringExecFns;
use crate::text::{
    ascii_lowercase_of, ascii_lowercase_range, chars_of, concat, contains_str, owned,
    starts_with_char, str_views, string_from_range, string_views, view_err,
};

verus! {

// ---------------------------------------------------------------------------
// Path components
//
// Paths are taken as text.  Both `/` and `\` separate components, as on the
// Windows desktop the player targets; `.` components are skipped and a final
// `..` has no file name, as `std::path::Path` does.
// ---------------------------------------------------------------------------

/// Component separators.
pub open spec fn is_separator(c: char) -> bool {
    c == '/' || c == '\\'
}

/// Index just after the last separator of `p` (0 when there is none).
pub open spec fn component_start(p: Seq<char>) -> int
    decreases p.len(),
{
    if p.len() == 0 {
        0
    } else if is_separator(p.last()) {
        p.len() as int
    } else {
        component_start(p.drop_last())
    }
}

pub proof fn lemma_component_start(p: Seq<char>)
    ensures
        0 <= component_start(p) <= p.len(),
        p.len() > 0 && !is_separator(p.last()) ==> component_start(p) < p.len(),
        forall|i: int| component_start(p) <= i < p.len() ==> !is_separator(#[trigger] p[i]),
        component_start(p) > 0 ==> is_separator(p[component_start(p) - 1]),
    decreases p.len(),
{
    if p.len() > 0 && !is_separator(p.last()) {
        lemma_component_start(p.drop_last());
        assert forall|i: int| component_start(p) <= i < p.len() implies !is_separator(
            #[trigger] p[i],
        ) by {
            if i < p.len() - 1 {
                assert(p.drop_last()[i] == p[i]);
            }
        }
    }
}

/// Final component of a path (`Path::file_name`): trailing separators and `.`
/// components are ignored; nothing when the path has no component or ends in `..`.
pub open spec fn spec_file_name(p: Seq<char>) -> Option<Seq<char>>
    decreases p.len(),
{
    if p.len() == 0 {
        None
    } else if is_separator(p.last()) {
        spec_file_name(p.drop_last())
    } else {
        let start = component_start(p);
        let component = p.subrange(start, p.len() as int);
        if component == seq!['.'] {
            proof {
                lemma_component_start(p);
            }
            spec_file_name(p.subrange(0, start))
        } else if component == seq!['.', '.'] {
            None
        } else {
            Some(component)
        }
    }
}

/// Index of the last `.` of `name`, or -1 when it has none.
pub open spec fn last_dot(name: Seq<char>) -> int
    decreases name.len(),
{
    if name.len() == 0 {
        -1
    } else if name.last() == '.' {
        name.len() - 1
    } else {
        last_dot(name.drop_last())
    }
}

pub proof fn lemma_last_dot(name: Seq<char>)
    ensures
        -1 <= last_dot(name) < name.len(),
        last_dot(name) >= 0 ==> name[last_dot(name)] == '.',
        forall|i: int| last_dot(name) < i < name.len() ==> #[trigger] name[i] != '.',
    decreases name.len(),
{
    if name.len() > 0 && name.last() != '.' {
        lemma_last_dot(name.drop_last());
        assert forall|i: int| last_dot(name) < i < name.len() implies #[trigger] name[i] != '.' by {
            if i < name.len() - 1 {
                assert(name.drop_last()[i] == name[i]);
            }
        }
    }
}

/// Extension of a file name: the text after its last `.`, unless it has no `.` or
/// its only `.` is its first character.
pub open spec fn name_extension(name: Seq<char>) -> Option<Seq<char>> {
    let d = last_dot(name);
    if d <= 0 {
        None
    } else {
        Some(name.subrange(d + 1, name.len() as int))
    }
}

/// Stem of a file name: the text before its last `.`, or the whole name when
/// `name_extension` finds none.
pub open spec fn name_stem(name: Seq<char>) -> Seq<char> {
    let d = last_dot(name);
    if d <= 0 {
        name
    } else {
        name.subrange(0, d)
    }
}

/// Extension of a path's file name, in ASCII lower case.
pub open spec fn spec_extension(path: Seq<char>) -> Option<Seq<char>> {
    match spec_file_name(path) {
        None => None,
        Some(name) => match name_extension(name) {
            None => None,
            Some(e) => Some(ascii_lowercase_of(e)),
        },
    }
}

/// Stem of a path's file name.
pub open spec fn spec_file_stem(path: Seq<char>) -> Option<Seq<char>> {
    match spec_file_name(path) {
        None => None,
        Some(name) => Some(name_stem(name)),
    }
}

fn separator(c: char) -> (r: bool)
    ensures
        r == is_separator(c),
{
    c == '/' || c == '\\'
}

/// Bounds of the file name within `v`.
fn file_name_bounds(v: &Vec<char>) -> (r: Option<(usize, usize)>)
    ensures
        match r {
            Some((a, b)) => a <= b <= v@.len() && spec_file_name(v@) == Some(
                v@.subrange(a as int, b as int),
            ),
            None => spec_file_name(v@) is None,
        },
{
    let mut end = v.len();
    assert(v@.subrange(0, end as int) =~= v@);
    loop
        invariant
            end <= v@.len(),
            spec_file_name(v@) == spec_file_name(v@.subrange(0, end as int)),
        decreases end,
    {
        let ghost prefix = v@.subrange(0, end as int);
        if end == 0 {
            return None;
        }
        if separator(v[end - 1]) {
            assert(prefix.drop_last() =~= v@.subrange(0, end - 1));
            end = end - 1;
        } else {
            let mut start = end;
            while start > 0 && !separator(v[start - 1])
                invariant
                    start <= end,
                    end <= v@.len(),
                    prefix == v@.subrange(0, end as int),
                    component_start(prefix) == component_start(v@.subrange(0, start as int)),
                decreases start,
            {
                assert(v@.subrange(0, start as int).drop_last() =~= v@.subrange(0, start - 1));
                start = start - 1;
            }
            proof {
                assert(component_start(prefix) == start as int);
                assert(prefix.subrange(start as int, end as int) =~= v@.subrange(
                    start as int,
                    end as int,
                ));
                assert(prefix.subrange(0, start as int) =~= v@.subrange(0, start as int));
            }
            let len = end - start;
            if len == 1 && v[start] == '.' {
                assert(v@.subrange(start as int, end as int) =~= seq!['.']);
                end = start;
            } else if len == 2 && v[start] == '.' && v[start + 1] == '.' {
                assert(v@.subrange(start as int, end as int) =~= seq!['.', '.']);
                return None;
            } else {
                proof {
                    let c = v@.subrange(start as int, end as int);
                    if c == seq!['.'] {
                        assert(c.len() == 1 && c[0] == '.');
                    }
                    if c == seq!['.', '.'] {
                        assert(c.len() == 2 && c[0] == '.' && c[1] == '.');
                    }
                }
                return Some((start, end));
            }
        }
    }
}

/// Position of the last `.` in `v[lo..hi]`, relative to `lo`.
fn last_dot_in(v: &Vec<char>, lo: usize, hi: usize) -> (r: Option<usize>)
    requires
        lo <= hi <= v@.len(),
    ensures
        match r {
            Some(d) => d == last_dot(v@.subrange(lo as int, hi as int)),
            None => last_dot(v@.subrange(lo as int, hi as int)) == -1,
        },
{
    let mut i = hi;
    assert(v@.subrange(lo as int, hi as int).subrange(0, (hi - lo) as int) =~= v@.subrange(
        lo as int,
        hi as int,
    ));
    while i > lo
        invariant
            lo <= i <= hi,
            hi <= v@.len(),
            last_dot(v@.subrange(lo as int, hi as int)) == last_dot(v@.subrange(lo as int, i as int)),
        decreases i,
    {
        if v[i - 1] == '.' {
            return Some(i - 1 - lo);
        }
        assert(v@.subrange(lo as int, i as int).drop_last() =~= v@.subrange(lo as int, i - 1));
        i = i - 1;
    }
    None
}

/// Final component of `path` (`Path::file_name`).
pub fn file_name(path: &str) -> (r: Option<String>)
    ensures
        match r {
            Some(n) => spec_file_name(path@) == Some(n@),
            None => spec_file_name(path@) is None,
        },
{
    let v = chars_of(path);
    match file_name_bounds(&v) {
        Some((a, b)) => Some(string_from_range(&v, a, b)),
        None => None,
    }
}

/// Stem of the final component of `path` (`Path::file_stem`).
pub fn file_stem(path: &str) -> (r: Option<String>)
    ensures
        match r {
            Some(n) => spec_file_stem(path@) == Some(n@),
            None => spec_file_stem(path@) is None,
        },
{
    let v = chars_of(path);
    match file_name_bounds(&v) {
        Some((a, b)) => {
            let d = match last_dot_in(&v, a, b) {
                Some(d) => d,
                None => 0,
            };
            proof {
                lemma_last_dot(v@.subrange(a as int, b as int));
            }
            if d == 0 {
                Some(string_from_range(&v, a, b))
            } else {
                assert(v@.subrange(a as int, b as int).subrange(0, d as int) =~= v@.subrange(
                    a as int,
                    a + d,
                ));
                Some(string_from_range(&v, a, a + d))
            }
        },
        None => None,
    }
}

/// Extension of `path` in ASCII lower case.
pub fn extension(path: &str) -> (r: Option<String>)
    ensures
        match r {
            Some(e) => spec_extension(path@) == Some(e@),
            None => spec_extension(path@) is None,
        },
{
    let v = chars_of(path);
    match file_name_bounds(&v) {
        Some((a, b)) => {
            let d = match last_dot_in(&v, a, b) {
                Some(d) => d,
                None => 0,
            };
            proof {
                lemma_last_dot(v@.subrange(a as int, b as int));
            }
            if d == 0 {
                None
            } else {
                let from = a + d + 1;
                assert(v@.subrange(a as int, b as int).subrange(d + 1, (b - a) as int)
                    =~= v@.subrange(from as int, b as int));
                Some(ascii_lowercase_range(&v, from, b))
            }
        },
        None => None,
    }
}


// ---------------------------------------------------------------------------
// Media kinds
// ---------------------------------------------------------------------------

/// Extensions of the video files the player opens, in the order they are tried.
pub open spec fn video_exts() -> Seq<Seq<char>> {
    seq![
        "mkv"@,
        "mp4"@,
        "avi"@,
        "mov"@,
        "webm"@,
        "flv"@,
        "ts"@,
        "m4v"@,
        "wmv"@,
        "mpg"@,
        "mpeg"@,
        "vob"@,
    ]
}

/// Extensions of the subtitle files the player loads.
pub open spec fn subtitle_exts() -> Seq<Seq<char>> {
    seq!["srt"@, "ass"@, "ssa"@, "vtt"@, "sub"@]
}

/// The video extensions, in the order they are tried.
pub fn video_ext_list() -> (v: Vec<&'static str>)
    ensures
        str_views(v@) == video_exts(),
{
    let v = vec!["mkv", "mp4", "avi", "mov", "webm", "flv", "ts", "m4v", "wmv", "mpg", "mpeg", "vob"];
    assert(str_views(v@) =~= video_exts());
    v
}

/// The subtitle extensions.
pub fn subtitle_ext_list() -> (v: Vec<&'static str>)
    ensures
        str_views(v@) == subtitle_exts(),
{
    let v = vec!["srt", "ass", "ssa", "vtt", "sub"];
    assert(str_views(v@) =~= subtitle_exts());
    v
}

/// A path names a video when its lower-cased extension is a video extension.
pub open spec fn spec_is_video_path(path: Seq<char>) -> bool {
    match spec_extension(path) {
        Some(e) => video_exts().contains(e),
        None => false,
    }
}

/// A path names a subtitle when its lower-cased extension is a subtitle extension.
pub open spec fn spec_is_subtitle_path(path: Seq<char>) -> bool {
    match spec_extension(path) {
        Some(e) => subtitle_exts().contains(e),
        None => false,
    }
}

/// Whether `path` names a video file, by its extension.
pub fn is_video_path(path: &str) -> (r: bool)
    ensures
        r == spec_is_video_path(path@),
{
    match extension(path) {
        Some(e) => {
            let list = video_ext_list();
            contains_str(list.as_slice(), e.as_str())
        },
        None => false,
    }
}

/// Whether `path` names a subtitle file, by its extension.
pub fn is_subtitle_path(path: &str) -> (r: bool)
    ensures
        r == spec_is_subtitle_path(path@),
{
    match extension(path) {
        Some(e) => {
            let list = subtitle_ext_list();
            contains_str(list.as_slice(), e.as_str())
        },
        None => false,
    }
}

/// A command-line argument opens a file when it is not an option (no leading `-`)
/// and names a video.
pub open spec fn is_video_argument(arg: Seq<char>) -> bool {
    !(arg.len() > 0 && arg[0] == '-') && spec_is_video_path(arg)
}

/// The first argument that opens a video file.
pub open spec fn first_video_argument(args: Seq<Seq<char>>) -> Option<Seq<char>>
    decreases args.len(),
{
    if args.len() == 0 {
        None
    } else if is_video_argument(args[0]) {
        Some(args[0])
    } else {
        first_video_argument(args.drop_first())
    }
}

/// Picks the video file named on a command line (the program name excluded).
pub fn video_file_from_args(args: &[&str]) -> (r: Option<String>)
    ensures
        match r {
            Some(a) => first_video_argument(str_views(args@)) == Some(a@),
            None => first_video_argument(str_views(args@)) is None,
        },
{
    let ghost all = str_views(args@);
    let mut i: usize = 0;
    assert(all.subrange(0, all.len() as int) =~= all);
    while i < args.len()
        invariant
            i <= args@.len(),
            all == str_views(args@),
            first_video_argument(all) == first_video_argument(all.subrange(i as int, all.len() as int)),
        decreases args@.len() - i,
    {
        let arg = args[i];
        assert(all.subrange(i as int, all.len() as int)[0] == arg@);
        if !starts_with_char(arg, '-') && is_video_path(arg) {
            return Some(owned(arg));
        }
        assert(all.subrange(i as int, all.len() as int).drop_first() =~= all.subrange(
            i + 1,
            all.len() as int,
        ));
        i = i + 1;
    }
    None
}

/// What a video file check answers: the extension decides first, then the
/// file system (`metadata` holds whether the path is a regular file, or the
/// message of the error met while reading its metadata).
pub open spec fn spec_validate_video_file(path: Seq<char>, metadata: Result<bool, Seq<char>>) -> Result<
    (),
    Seq<char>,
> {
    if !spec_is_video_path(path) {
        Err("不支持的视频文件格式"@)
    } else {
        match metadata {
            Err(e) => Err("无法读取视频文件: "@ + e),
            Ok(false) => Err("视频路径不是普通文件"@),
            Ok(true) => Ok(()),
        }
    }
}

/// Checks that `path` is a video file the player can open.
pub fn validate_video_file(path: &str, metadata: Result<bool, String>) -> (r: Result<(), String>)
    ensures
        view_err(r) == spec_validate_video_file(path@, view_err(metadata)),
{
    if !is_video_path(path) {
        return Err(owned("不支持的视频文件格式"));
    }
    match metadata {
        Err(e) => Err(concat("无法读取视频文件: ", e.as_str())),
        Ok(false) => Err(owned("视频路径不是普通文件")),
        Ok(true) => Ok(()),
    }
}

/// File names of the videos that may go with a subtitle: the subtitle's stem with
/// each video extension, in order; nothing when `sub_path` is not a subtitle.
pub open spec fn spec_sibling_video_names(sub_path: Seq<char>) -> Option<Seq<Seq<char>>> {
    if !spec_is_subtitle_path(sub_path) {
        None
    } else {
        let stem = spec_file_stem(sub_path)->0;
        Some(video_exts().map_values(|e: Seq<char>| stem + seq!['.'] + e))
    }
}

/// Candidate names for the video that goes with the subtitle `sub_path`.
pub fn sibling_video_names(sub_path: &str) -> (r: Option<Vec<String>>)
    ensures
        match r {
            Some(v) => spec_sibling_video_names(sub_path@) == Some(string_views(v@)),
            None => spec_sibling_video_names(sub_path@) is None,
        },
{
    if !is_subtitle_path(sub_path) {
        return None;
    }
    let stem = match file_stem(sub_path) {
        Some(s) => s,
        None => {
            return None;
        },
    };
    let exts = video_ext_list();
    let ghost want = video_exts().map_values(|e: Seq<char>| stem@ + seq!['.'] + e);
    let mut names: Vec<String> = Vec::new();
    let mut i: usize = 0;
    while i < exts.len()
        invariant
            i <= exts@.len(),
            str_views(exts@) == video_exts(),
            want == video_exts().map_values(|e: Seq<char>| stem@ + seq!['.'] + e),
            string_views(names@) == want.subrange(0, i as int),
            names@.len() == i,
        decreases exts@.len() - i,
    {
        let mut name = concat(stem.as_str(), ".");
        name.append(exts[i]);
        proof {
            reveal_strlit(".");
            assert(video_exts()[i as int] == exts@[i as int]@);
            assert(name@ =~= stem@ + seq!['.'] + video_exts()[i as int]);
            assert(want[i as int] == name@);
        }
        let ghost before = names@;
        let ghost added = name@;
        names.push(name);
        proof {
            assert(names@ == before.push(names@[i as int]));
            assert(names@[i as int]@ == added);
            assert forall|j: int| 0 <= j < i + 1 implies #[trigger] string_views(names@)[j] == want.subrange(0, i + 1)[j] by {
                if j < i {
                    assert(string_views(before)[j] == want.subrange(0, i as int)[j]);
                }
            }
        }
        assert(string_views(names@) =~= want.subrange(0, i + 1));
        i = i + 1;
    }
    assert(want.subrange(0, exts@.len() as int) =~= want);
    Some(names)
}


// ---------------------------------------------------------------------------
// Laws
// ---------------------------------------------------------------------------

/// No path is both a video and a subtitle.
pub proof fn lemma_video_and_subtitle_exclusive(path: Seq<char>)
    ensures
        !(spec_is_video_path(path) && spec_is_subtitle_path(path)),
{
    reveal_strlit("mkv");
    reveal_strlit("mp4");
    reveal_strlit("avi");
    reveal_strlit("mov");
    reveal_strlit("webm");
    reveal_strlit("flv");
    reveal_strlit("ts");
    reveal_strlit("m4v");
    reveal_strlit("wmv");
    reveal_strlit("mpg");
    reveal_strlit("mpeg");
    reveal_strlit("vob");
    reveal_strlit("srt");
    reveal_strlit("ass");
    reveal_strlit("ssa");
    reveal_strlit("vtt");
    reveal_strlit("sub");
    if let Some(e) = spec_extension(path) {
        if video_exts().contains(e) && subtitle_exts().contains(e) {
            let i = choose|i: int| 0 <= i < video_exts().len() && video_exts()[i] == e;
            let j = choose|j: int| 0 <= j < subtitle_exts().len() && subtitle_exts()[j] == e;
            assert(video_exts()[i][0] == subtitle_exts()[j][0]);
            assert(video_exts()[i].len() == subtitle_exts()[j].len());
            assert(video_exts()[i][1] == subtitle_exts()[j][1]);
            assert(false);
        }
    }
}

/// The argument picked from a command line is the first one that is not an
/// option and names a video; when none is picked, no argument qualifies.
pub proof fn lemma_first_video_argument(args: Seq<Seq<char>>)
    ensures
        first_video_argument(args) matches Some(a) ==> exists|i: int|
            0 <= i < args.len() && args[i] == a && is_video_argument(a) && forall|j: int|
                0 <= j < i ==> !is_video_argument(#[trigger] args[j]),
        first_video_argument(args) is None ==> forall|j: int|
            0 <= j < args.len() ==> !is_video_argument(#[trigger] args[j]),
    decreases args.len(),
{
    if args.len() > 0 {
        lemma_first_video_argument(args.drop_first());
        if !is_video_argument(args[0]) {
            if let Some(a) = first_video_argument(args) {
                let k = choose|k: int|
                    0 <= k < args.drop_first().len() && args.drop_first()[k] == a
                        && is_video_argument(a) && forall|j: int|
                        0 <= j < k ==> !is_video_argument(#[trigger] args.drop_first()[j]);
                assert forall|j: int| 0 <= j < k + 1 implies !is_video_argument(
                    #[trigger] args[j],
                ) by {
                    if j > 0 {
                        assert(args[j] == args.drop_first()[j - 1]);
                    }
                }
                assert(args[k + 1] == a);
            } else {
                assert forall|j: int| 0 <= j < args.len() implies !is_video_argument(
                    #[trigger] args[j],
                ) by {
                    if j > 0 {
                        assert(args[j] == args.drop_first()[j - 1]);
                    }
                }
            }
        }
    }
}

} // verus!
