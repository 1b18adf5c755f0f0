use vstd::prelude::*;
use crate::text::{
    ascii_lowercase_of, ascii_lowercase_range, char_count, chars_of, decimal, owned, str_eq,
    string_push,
    trim, trimmed, view_err,
};

verus! {

// ---------------------------------------------------------------------------
// LIKE patterns
// ---------------------------------------------------------------------------

/// Characters with a meaning in a LIKE pattern escaped with `\`.
pub open spec fn is_like_special(c: char) -> bool {
    c == '\\' || c == '%' || c == '_'
}

/// One character of a keyword as it stands in a LIKE pattern.
pub open spec fn like_escape_char(c: char) -> Seq<char> {
    if is_like_special(c) {
        seq!['\\', c]
    } else {
        seq![c]
    }
}

/// A keyword with `\`, `%` and `_` escaped by a `\`.
pub open spec fn spec_escape_like(s: Seq<char>) -> Seq<char>
    decreases s.len(),
{
    if s.len() == 0 {
        Seq::empty()
    } else {
        spec_escape_like(s.drop_last()) + like_escape_char(s.last())
    }
}

/// Escapes the LIKE metacharacters of `value`.
pub fn escape_like(value: &str) -> (r: String)
    ensures
        r@ == spec_escape_like(value@),
{
    let v = chars_of(value);
    let mut r = String::new();
    let mut i: usize = 0;
    assert(v@.subrange(0, 0) =~= Seq::<char>::empty());
    while i < v.len()
        invariant
            i <= v@.len(),
            r@ == spec_escape_like(v@.subrange(0, i as int)),
        decreases v@.len() - i,
    {
        let c = v[i];
        assert(v@.subrange(0, i + 1).drop_last() =~= v@.subrange(0, i as int));
        let ghost before = r@;
        if c == '\\' || c == '%' || c == '_' {
            string_push(&mut r, '\\');
        }
        string_push(&mut r, c);
        assert(r@ =~= before + like_escape_char(c));
        i = i + 1;
    }
    assert(v@.subrange(0, v@.len() as int) =~= v@);
    r
}

/// The pattern that finds `keyword` anywhere in a text.
pub open spec fn spec_like_pattern(keyword: Seq<char>) -> Seq<char> {
    seq!['%'] + spec_escape_like(keyword) + seq!['%']
}

/// Builds the pattern that finds `keyword` anywhere in a text.
pub fn like_pattern(keyword: &str) -> (r: String)
    ensures
        r@ == spec_like_pattern(keyword@),
{
    let mut r = String::new();
    string_push(&mut r, '%');
    let escaped = escape_like(keyword);
    let v = chars_of(escaped.as_str());
    let mut i: usize = 0;
    while i < v.len()
        invariant
            i <= v@.len(),
            v@ == spec_escape_like(keyword@),
            r@ == seq!['%'] + v@.subrange(0, i as int),
        decreases v@.len() - i,
    {
        string_push(&mut r, v[i]);
        assert(v@.subrange(0, i + 1) =~= v@.subrange(0, i as int).push(v@[i as int]));
        i = i + 1;
    }
    string_push(&mut r, '%');
    assert(v@.subrange(0, v@.len() as int) =~= v@);
    assert(r@ =~= spec_like_pattern(keyword@));
    r
}

// ---------------------------------------------------------------------------
// Keyword and star searches
// ---------------------------------------------------------------------------

/// Longest keyword, in characters.
pub const KEYWORD_MAX: usize = 200;

/// A keyword search: the trimmed keyword must hold at most 200 characters; an
/// empty one finds nothing (no pattern); otherwise the pattern that finds it.
pub open spec fn spec_plan_keyword_search(keyword: Seq<char>) -> Result<Option<Seq<char>>, Seq<char>> {
    let k = trim(keyword);
    if k.len() == 0 {
        Ok(None)
    } else if k.len() > KEYWORD_MAX {
        Err("搜索关键词过长"@)
    } else {
        Ok(Some(spec_like_pattern(k)))
    }
}

/// Plans a keyword search.
pub fn plan_keyword_search(keyword: &str) -> (r: Result<Option<String>, String>)
    ensures
        match r {
            Ok(Some(p)) => spec_plan_keyword_search(keyword@) == Ok::<Option<Seq<char>>, Seq<char>>(
                Some(p@),
            ),
            Ok(None) => spec_plan_keyword_search(keyword@) == Ok::<Option<Seq<char>>, Seq<char>>(
                None,
            ),
            Err(e) => spec_plan_keyword_search(keyword@) == Err::<Option<Seq<char>>, Seq<char>>(
                e@,
            ),
        },
{
    let k = trimmed(keyword);
    let n = char_count(k.as_str());
    if n == 0 {
        Ok(None)
    } else if n > KEYWORD_MAX {
        Err(owned("搜索关键词过长"))
    } else {
        Ok(Some(like_pattern(k.as_str())))
    }
}

/// Star ratings run from 1 to 7.
pub open spec fn valid_stars(stars: i64) -> bool {
    1 <= stars && stars <= 7
}

/// Checks a star rating.
pub fn check_stars(stars: i64) -> (r: Result<(), String>)
    ensures
        view_err(r) == if valid_stars(stars) {
            Ok(())
        } else {
            Err("星级必须在 1-7 之间"@)
        },
{
    if 1 <= stars && stars <= 7 {
        Ok(())
    } else {
        Err(owned("星级必须在 1-7 之间"))
    }
}

// ---------------------------------------------------------------------------
// Paged search
// ---------------------------------------------------------------------------

/// A page of the search over file names and tag values.
pub struct SearchRequest {
    pub keyword: String,
    pub stars: Option<i64>,
    pub sort_key: String,
    pub sort_dir: String,
    pub page: i64,
    pub page_size: i64,
}

/// A paged search ready to run.
pub struct SearchPlan {
    /// The trimmed keyword (empty matches every video).
    pub keyword: String,
    /// The pattern that finds the keyword.
    pub like: String,
    /// The star rating to match, or 0 for any.
    pub stars: i64,
    /// The requested page, at least 1.
    pub page: i64,
    /// Videos per page, from 1 to 100.
    pub page_size: i64,
    /// The column (or result position) to sort by.
    pub sort_column: &'static str,
    /// `ASC` or `DESC`.
    pub direction: &'static str,
}

/// Largest page.
pub const PAGE_SIZE_MAX: i64 = 100;

/// The sort column for a sort key; unknown keys sort by modification time.
pub open spec fn spec_sort_column(key: Seq<char>) -> Seq<char> {
    if key == "file_name"@ {
        "v.file_name"@
    } else if key == "file_path"@ {
        "v.file_path"@
    } else if key == "size_bytes"@ {
        "v.size_bytes"@
    } else if key == "stars"@ {
        "9"@
    } else if key == "quality"@ {
        "10"@
    } else {
        "v.modified_at"@
    }
}

/// The columns of a video row as the library query returns them, in order: the
/// stored facts of the video, then its star rating and its quality, which the
/// query computes from its tags.
pub open spec fn video_row_columns() -> Seq<Seq<char>> {
    seq![
        "hash"@,
        "file_name"@,
        "file_path"@,
        "extension"@,
        "size_bytes"@,
        "modified_at"@,
        "play_position"@,
        "duration"@,
        "stars"@,
        "quality"@,
    ]
}

/// The sort keys a search offers besides the default order.
pub open spec fn is_sort_key(key: Seq<char>) -> bool {
    ||| key == "file_name"@
    ||| key == "file_path"@
    ||| key == "size_bytes"@
    ||| key == "stars"@
    ||| key == "quality"@
}

/// Each sort key sorts by its own column of the video row: a stored column by its
/// name on the videos table, a computed one (star rating, quality) by its position
/// in the row, counted from 1; any other key sorts by modification time.  So two
/// different keys never sort by the same column.
pub proof fn lemma_sort_column_of_key(key: Seq<char>, other: Seq<char>)
    ensures
        forall|i: int|
            0 <= i < video_row_columns().len() && #[trigger] video_row_columns()[i] == key
                ==> spec_sort_column(key) == if key == "stars"@ || key == "quality"@ {
                decimal((i + 1) as nat)
            } else if is_sort_key(key) {
                "v."@ + key
            } else {
                "v.modified_at"@
            },
        !is_sort_key(key) ==> spec_sort_column(key) == "v.modified_at"@,
        is_sort_key(key) && key != other ==> spec_sort_column(key) != spec_sort_column(other),
{
    reveal_strlit("hash");
    reveal_strlit("file_name");
    reveal_strlit("file_path");
    reveal_strlit("extension");
    reveal_strlit("size_bytes");
    reveal_strlit("modified_at");
    reveal_strlit("play_position");
    reveal_strlit("duration");
    reveal_strlit("stars");
    reveal_strlit("quality");
    reveal_strlit("v.");
    reveal_strlit("v.file_name");
    reveal_strlit("v.file_path");
    reveal_strlit("v.size_bytes");
    reveal_strlit("v.modified_at");
    reveal_strlit("9");
    reveal_strlit("10");
    assert(decimal(9) =~= "9"@);
    assert(decimal(1) =~= seq!['1']);
    assert(decimal(10) =~= "10"@);
    assert("v."@ + "file_name"@ =~= "v.file_name"@);
    assert("v."@ + "file_path"@ =~= "v.file_path"@);
    assert("v."@ + "size_bytes"@ =~= "v.size_bytes"@);
    assert("v."@ + "modified_at"@ =~= "v.modified_at"@);
    assert forall|i: int|
        0 <= i < video_row_columns().len() && #[trigger] video_row_columns()[i] == key
            implies spec_sort_column(key) == if key == "stars"@ || key == "quality"@ {
            decimal((i + 1) as nat)
        } else if is_sort_key(key) {
            "v."@ + key
        } else {
            "v.modified_at"@
        } by {
        assert(video_row_columns()[i].len() > 0);
    }
    assert("v.file_name"@[7] != "v.file_path"@[7]);
    if is_sort_key(key) && key != other && spec_sort_column(key) == spec_sort_column(other) {
        let c = spec_sort_column(key);
        assert(c.len() == spec_sort_column(other).len());
        assert(c.len() == 11 ==> c[7] == spec_sort_column(other)[7]);
    }
}

/// Ascending only when asked for `asc` in any ASCII case.
pub open spec fn spec_sort_direction(dir: Seq<char>) -> Seq<char> {
    if ascii_lowercase_of(dir) == "asc"@ {
        "ASC"@
    } else {
        "DESC"@
    }
}

/// The plan of a paged search: page size clamped to 1..=100, page at least 1, a
/// trimmed keyword of at most 200 characters, a star rating from 1 to 7 if any.
pub open spec fn spec_plan_search(
    keyword: Seq<char>,
    stars: Option<i64>,
    sort_key: Seq<char>,
    sort_dir: Seq<char>,
    page: i64,
    page_size: i64,
) -> Result<(Seq<char>, Seq<char>, i64, i64, i64, Seq<char>, Seq<char>), Seq<char>> {
    let k = trim(keyword);
    if k.len() > KEYWORD_MAX {
        Err("搜索关键词过长"@)
    } else if stars is Some && !valid_stars(stars->0) {
        Err("星级必须在 1-7 之间"@)
    } else {
        Ok(
            (
                k,
                spec_like_pattern(k),
                match stars {
                    Some(s) => s,
                    None => 0,
                },
                if page < 1 {
                    1
                } else {
                    page
                },
                if page_size < 1 {
                    1
                } else if page_size > PAGE_SIZE_MAX {
                    PAGE_SIZE_MAX
                } else {
                    page_size
                },
                spec_sort_column(sort_key),
                spec_sort_direction(sort_dir),
            ),
        )
    }
}

/// A search plan as plain values.
pub open spec fn plan_view(r: Result<SearchPlan, String>) -> Result<
    (Seq<char>, Seq<char>, i64, i64, i64, Seq<char>, Seq<char>),
    Seq<char>,
> {
    match r {
        Ok(p) => Ok(
            (p.keyword@, p.like@, p.stars, p.page, p.page_size, p.sort_column@, p.direction@),
        ),
        Err(e) => Err(e@),
    }
}

fn sort_column(key: &str) -> (r: &'static str)
    ensures
        r@ == spec_sort_column(key@),
{
    if str_eq(key, "file_name") {
        "v.file_name"
    } else if str_eq(key, "file_path") {
        "v.file_path"
    } else if str_eq(key, "size_bytes") {
        "v.size_bytes"
    } else if str_eq(key, "stars") {
        "9"
    } else if str_eq(key, "quality") {
        "10"
    } else {
        "v.modified_at"
    }
}

fn sort_direction(dir: &str) -> (r: &'static str)
    ensures
        r@ == spec_sort_direction(dir@),
{
    let v = chars_of(dir);
    let lower = ascii_lowercase_range(&v, 0, v.len());
    assert(v@.subrange(0, v@.len() as int) =~= v@);
    if str_eq(lower.as_str(), "asc") {
        "ASC"
    } else {
        "DESC"
    }
}

/// Plans a paged search.
pub fn plan_search(request: &SearchRequest) -> (r: Result<SearchPlan, String>)
    ensures
        plan_view(r) == spec_plan_search(
            request.keyword@,
            request.stars,
            request.sort_key@,
            request.sort_dir@,
            request.page,
            request.page_size,
        ),
{
    let page_size = if request.page_size < 1 {
        1
    } else if request.page_size > PAGE_SIZE_MAX {
        PAGE_SIZE_MAX
    } else {
        request.page_size
    };
    let page = if request.page < 1 {
        1
    } else {
        request.page
    };
    let keyword = trimmed(request.keyword.as_str());
    if char_count(keyword.as_str()) > KEYWORD_MAX {
        return Err(owned("搜索关键词过长"));
    }
    if let Some(s) = request.stars {
        if !(1 <= s && s <= 7) {
            return Err(owned("星级必须在 1-7 之间"));
        }
    }
    let like = like_pattern(keyword.as_str());
    let stars = match request.stars {
        Some(s) => s,
        None => 0,
    };
    Ok(
        SearchPlan {
            keyword,
            like,
            stars,
            page,
            page_size,
            sort_column: sort_column(request.sort_key.as_str()),
            direction: sort_direction(request.sort_dir.as_str()),
        },
    )
}

/// Where a page of results starts.
pub struct Pagination {
    /// The page shown: the requested one, but not past the last page.
    pub page: i64,
    /// Number of pages of results.
    pub total_pages: i64,
    /// Number of results before the page.
    pub offset: i64,
}

/// Pages `total` results by `page_size`, clamping the requested `page`.
pub fn paginate(page: i64, page_size: i64, total: i64) -> (r: Pagination)
    requires
        1 <= page,
        1 <= page_size <= PAGE_SIZE_MAX,
        0 <= total <= i64::MAX - PAGE_SIZE_MAX,
        total == 0 ==> (page - 1) * page_size <= i64::MAX,
    ensures
        r.total_pages == (total + page_size - 1) / (page_size as int),
        r.page == if r.total_pages > 0 && page > r.total_pages {
            r.total_pages
        } else {
            page
        },
        r.offset == (r.page - 1) * page_size,
        r.total_pages * page_size >= total,
        total > 0 ==> 0 <= r.offset < total,
{
    let total_pages = (total + page_size - 1) / page_size;
    let shown = if total_pages > 0 && page > total_pages {
        total_pages
    } else {
        page
    };
    proof {
        let t: int = total + page_size - 1;
        assert(total_pages * page_size <= t && t < total_pages * page_size + page_size) by (
        nonlinear_arith)
            requires
                total_pages == t / (page_size as int),
                page_size >= 1,
                t >= 0,
        ;
        if total > 0 {
            assert(total_pages >= 1) by (nonlinear_arith)
                requires
                    total_pages * page_size + page_size > total + page_size - 1,
                    total >= 1,
                    page_size >= 1,
                    total_pages >= 0,
            ;
            assert(0 <= (shown - 1) * page_size && (shown - 1) * page_size < total) by (
            nonlinear_arith)
                requires
                    1 <= shown <= total_pages,
                    total_pages * page_size <= total + page_size - 1,
                    page_size >= 1,
            ;
        }
        assert(total_pages >= 0) by (nonlinear_arith)
            requires
                total_pages == t / (page_size as int),
                page_size >= 1,
                t >= 0,
        ;
        if total == 0 {
            assert(total_pages == 0) by (nonlinear_arith)
                requires
                    total_pages * page_size <= page_size - 1,
                    page_size >= 1,
                    total_pages >= 0,
            ;
        }
    }
    let offset = (shown - 1) * page_size;
    Pagination { page: shown, total_pages, offset }
}


// ---------------------------------------------------------------------------
// Laws
// ---------------------------------------------------------------------------

proof fn lemma_escape_like_len(s: Seq<char>)
    ensures
        spec_escape_like(s).len() >= s.len(),
        s.len() > 0 ==> spec_escape_like(s).last() == s.last(),
    decreases s.len(),
{
    if s.len() > 0 {
        lemma_escape_like_len(s.drop_last());
    }
}

/// Escaping loses nothing: different keywords give different escaped texts.
pub proof fn lemma_escape_like_injective(a: Seq<char>, b: Seq<char>)
    requires
        spec_escape_like(a) == spec_escape_like(b),
    ensures
        a == b,
    decreases a.len(),
{
    lemma_escape_like_len(a);
    lemma_escape_like_len(b);
    if a.len() == 0 {
        assert(b.len() == 0);
        assert(a =~= b);
    } else {
        assert(b.len() > 0);
        assert(a.last() == b.last());
        let x = spec_escape_like(a.drop_last());
        let y = spec_escape_like(b.drop_last());
        let e = like_escape_char(a.last());
        assert(x + e == y + e);
        assert(x =~= (x + e).subrange(0, x.len() as int));
        assert(y =~= (y + e).subrange(0, y.len() as int));
        lemma_escape_like_injective(a.drop_last(), b.drop_last());
        assert(a =~= a.drop_last().push(a.last()));
        assert(b =~= b.drop_last().push(b.last()));
    }
}

} // verus!
