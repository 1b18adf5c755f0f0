use vstd::prelude::*;
use vstd::string::StringExecFns;
use crate::text::{
    char_count, concat, contains_string, decimal, dedup, is_whitespace, lemma_dedup, lemma_trim,
    no_duplicates, owned, push_decimal, str_eq, string_views, trim, trimmed, view_err, view_text,
};

verus! {

// ---------------------------------------------------------------------------
// Names and options
// ---------------------------------------------------------------------------

/// The message for a text whose trimmed length is outside 1..=`max` characters.
pub open spec fn text_length_error(label: Seq<char>, max: nat) -> Seq<char> {
    label + "长度必须为 1-"@ + decimal(max) + " 个字符"@
}

/// A user-entered text is trimmed and must then hold 1 to `max` characters.
pub open spec fn spec_clean_text(value: Seq<char>, label: Seq<char>, max: nat) -> Result<
    Seq<char>,
    Seq<char>,
> {
    let t = trim(value);
    if t.len() == 0 || t.len() > max {
        Err(text_length_error(label, max))
    } else {
        Ok(t)
    }
}

/// Trims a user-entered text and checks its length; `label` names it in the error.
pub fn clean_text(value: String, label: &str, max: usize) -> (r: Result<String, String>)
    ensures
        view_text(r) == spec_clean_text(value@, label@, max as nat),
{
    let t = trimmed(value.as_str());
    let n = char_count(t.as_str());
    if n == 0 || n > max {
        let mut m = concat(label, "长度必须为 1-");
        push_decimal(&mut m, max as u64);
        m.append(" 个字符");
        Err(m)
    } else {
        Ok(t)
    }
}

/// Cleans every text of `values` in order; the first failure decides the error.
pub open spec fn spec_clean_all(values: Seq<Seq<char>>, label: Seq<char>, max: nat) -> Result<
    Seq<Seq<char>>,
    Seq<char>,
>
    decreases values.len(),
{
    if values.len() == 0 {
        Ok(Seq::empty())
    } else {
        match spec_clean_all(values.drop_last(), label, max) {
            Err(e) => Err(e),
            Ok(done) => match spec_clean_text(values.last(), label, max) {
                Err(e) => Err(e),
                Ok(t) => Ok(done.push(t)),
            },
        }
    }
}

/// Maximum length of a tag type's name.
pub const TAG_NAME_MAX: usize = 64;

/// Maximum length of an enumerated tag's option.
pub const TAG_OPTION_MAX: usize = 128;

/// A tag type ready to be stored.
pub struct NewTagType {
    pub name: String,
    pub value_type: String,
    pub options: Vec<String>,
}

/// A prepared tag type as its name and options.
pub open spec fn prepared_view(r: Result<NewTagType, String>) -> Result<
    (Seq<char>, Seq<Seq<char>>),
    Seq<char>,
> {
    match r {
        Ok(t) => Ok((t.name@, string_views(t.options@))),
        Err(e) => Err(e@),
    }
}

/// Checks a new tag type: its name is cleaned (1 to 64 characters), its kind is
/// `enum` or `free`, its options are cleaned (1 to 128 characters each) and
/// de-duplicated, and an `enum` type needs at least one option.
pub open spec fn spec_prepare_tag_type(
    name: Seq<char>,
    value_type: Seq<char>,
    options: Seq<Seq<char>>,
) -> Result<(Seq<char>, Seq<Seq<char>>), Seq<char>> {
    match spec_clean_text(name, "标签名称"@, TAG_NAME_MAX as nat) {
        Err(e) => Err(e),
        Ok(n) => if value_type != "enum"@ && value_type != "free"@ {
            Err("标签类型必须是 enum 或 free"@)
        } else {
            match spec_clean_all(options, "标签选项"@, TAG_OPTION_MAX as nat) {
                Err(e) => Err(e),
                Ok(cleaned) => if value_type == "enum"@ && dedup(cleaned).len() == 0 {
                    Err("枚举标签至少需要一个选项"@)
                } else {
                    Ok((n, dedup(cleaned)))
                },
            }
        },
    }
}

/// Checks and normalises a new tag type before it is stored.
pub fn prepare_tag_type(name: String, value_type: String, options: Vec<String>) -> (r: Result<
    NewTagType,
    String,
>)
    ensures
        prepared_view(r) == spec_prepare_tag_type(name@, value_type@, string_views(options@)),
        r matches Ok(t) ==> t.value_type@ == value_type@,
{
    let ghost name_view = name@;
    let clean_name = match clean_text(name, "标签名称", TAG_NAME_MAX) {
        Ok(n) => n,
        Err(e) => {
            return Err(e);
        },
    };
    let is_enum = str_eq(value_type.as_str(), "enum");
    if !is_enum && !str_eq(value_type.as_str(), "free") {
        return Err(owned("标签类型必须是 enum 或 free"));
    }
    let ghost all = string_views(options@);
    let mut cleaned: Vec<String> = Vec::new();
    let mut unique: Vec<String> = Vec::new();
    let mut i: usize = 0;
    assert(all.subrange(0, 0) =~= Seq::<Seq<char>>::empty());
    assert(string_views(cleaned@) =~= Seq::<Seq<char>>::empty());
    assert(string_views(unique@) =~= Seq::<Seq<char>>::empty());
    while i < options.len()
        invariant
            i <= options@.len(),
            spec_clean_text(name_view, "标签名称"@, TAG_NAME_MAX as nat) == Ok::<
                Seq<char>,
                Seq<char>,
            >(clean_name@),
            value_type@ == "enum"@ || value_type@ == "free"@,
            is_enum == (value_type@ == "enum"@),
            name_view == name@,
            all == string_views(options@),
            spec_clean_all(all.subrange(0, i as int), "标签选项"@, TAG_OPTION_MAX as nat) == Ok::<
                Seq<Seq<char>>,
                Seq<char>,
            >(string_views(cleaned@)),
            string_views(unique@) == dedup(string_views(cleaned@)),
        decreases options@.len() - i,
    {
        let option = options[i].clone();
        assert(all.subrange(0, i + 1).drop_last() =~= all.subrange(0, i as int));
        assert(all.subrange(0, i + 1).last() == option@);
        let ghost option_view = option@;
        assert(all[i as int] == option_view);
        match clean_text(option, "标签选项", TAG_OPTION_MAX) {
            Err(e) => {
                proof {
                    lemma_clean_all_fails_on_extension(
                        all,
                        i as int,
                        "标签选项"@,
                        TAG_OPTION_MAX as nat,
                    );
                }
                return Err(e);
            },
            Ok(t) => {
                let ghost before = string_views(cleaned@);
                let seen = contains_string(&unique, t.as_str());
                let copy = t.clone();
                cleaned.push(t);
                assert(string_views(cleaned@) =~= before.push(copy@));
                if !seen {
                    let ghost u = string_views(unique@);
                    unique.push(copy);
                    assert(string_views(unique@) =~= u.push(copy@));
                }
                assert(before.push(copy@).drop_last() =~= before);
            },
        }
        i = i + 1;
    }
    assert(all.subrange(0, options@.len() as int) =~= all);
    if is_enum && unique.len() == 0 {
        return Err(owned("枚举标签至少需要一个选项"));
    }
    Ok(NewTagType { name: clean_name, value_type, options: unique })
}

proof fn lemma_clean_all_fails_on_extension(all: Seq<Seq<char>>, i: int, label: Seq<char>, max: nat)
    requires
        0 <= i < all.len(),
        spec_clean_all(all.subrange(0, i), label, max) is Ok,
        spec_clean_text(all[i], label, max) is Err,
    ensures
        spec_clean_all(all, label, max) == Err::<Seq<Seq<char>>, Seq<char>>(
            spec_clean_text(all[i], label, max)->Err_0,
        ),
    decreases all.len(),
{
    assert(all.subrange(0, i + 1).drop_last() =~= all.subrange(0, i));
    if i + 1 < all.len() {
        assert(all.drop_last().subrange(0, i) =~= all.subrange(0, i));
        lemma_clean_all_fails_on_extension(all.drop_last(), i, label, max);
    } else {
        assert(all.subrange(0, i) =~= all.drop_last());
    }
}


// ---------------------------------------------------------------------------
// Tag values
// ---------------------------------------------------------------------------

/// Most values one tag may hold on a video.
pub const TAG_VALUES_MAX: usize = 100;

/// Longest value, in characters.
pub const TAG_VALUE_LEN_MAX: usize = 1024;

/// The entered values, each trimmed, without the empty ones.
pub open spec fn trimmed_nonempty(values: Seq<Seq<char>>) -> Seq<Seq<char>>
    decreases values.len(),
{
    if values.len() == 0 {
        values
    } else {
        let r = trimmed_nonempty(values.drop_last());
        let t = trim(values.last());
        if t.len() == 0 {
            r
        } else {
            r.push(t)
        }
    }
}

/// The entered values as stored: trimmed, non-empty, each once, in entry order.
pub open spec fn normalize_tag_values(values: Seq<Seq<char>>) -> Seq<Seq<char>> {
    dedup(trimmed_nonempty(values))
}

/// Whether some value has more than `max` characters.
pub open spec fn any_longer_than(values: Seq<Seq<char>>, max: nat) -> bool {
    exists|i: int| 0 <= i < values.len() && (#[trigger] values[i]).len() > max
}

/// The first value that is not among `allowed`.
pub open spec fn first_not_allowed(values: Seq<Seq<char>>, allowed: Seq<Seq<char>>) -> Option<
    Seq<char>,
>
    decreases values.len(),
{
    if values.len() == 0 {
        None
    } else if !allowed.contains(values[0]) {
        Some(values[0])
    } else {
        first_not_allowed(values.drop_first(), allowed)
    }
}

/// The message for a value outside an enumerated tag's options.
pub open spec fn not_an_option_error(value: Seq<char>) -> Seq<char> {
    "标签值“"@ + value + "”不在候选项中"@
}

/// Checks the values entered for a tag of kind `value_type`.  The tag takes several
/// values only when its type allows it (`is_multi` non-zero) and it is not a system
/// tag; at most 100 values of at most 1024 characters are kept; an enumerated tag
/// takes only its options (`allowed`).  On success: whether several values are
/// allowed, and the normalised values.
pub open spec fn spec_validate_tag_values(
    value_type: Seq<char>,
    is_multi: i64,
    has_system_key: bool,
    values: Seq<Seq<char>>,
    allowed: Seq<Seq<char>>,
) -> Result<(bool, Seq<Seq<char>>), Seq<char>> {
    let vs = normalize_tag_values(values);
    let multi = is_multi != 0 && !has_system_key;
    if !multi && vs.len() > 1 {
        Err("该标签只能设置一个值"@)
    } else if vs.len() > TAG_VALUES_MAX || any_longer_than(vs, TAG_VALUE_LEN_MAX as nat) {
        Err("标签值数量或长度超出限制"@)
    } else if value_type == "enum"@ {
        match first_not_allowed(vs, allowed) {
            Some(v) => Err(not_an_option_error(v)),
            None => Ok((multi, vs)),
        }
    } else {
        Ok((multi, vs))
    }
}

/// Validated tag values as plain values.
pub open spec fn tag_values_view(r: Result<(bool, Vec<String>), String>) -> Result<
    (bool, Seq<Seq<char>>),
    Seq<char>,
> {
    match r {
        Ok((m, v)) => Ok((m, string_views(v@))),
        Err(e) => Err(e@),
    }
}

/// Trims, de-duplicates and checks the values entered for a tag.
pub fn normalize_values(values: &Vec<String>) -> (r: Vec<String>)
    ensures
        string_views(r@) == normalize_tag_values(string_views(values@)),
{
    let ghost all = string_views(values@);
    let mut out: Vec<String> = Vec::new();
    let mut i: usize = 0;
    assert(all.subrange(0, 0) =~= Seq::<Seq<char>>::empty());
    assert(string_views(out@) =~= Seq::<Seq<char>>::empty());
    while i < values.len()
        invariant
            i <= values@.len(),
            all == string_views(values@),
            string_views(out@) == dedup(trimmed_nonempty(all.subrange(0, i as int))),
        decreases values@.len() - i,
    {
        let t = trimmed(values[i].as_str());
        assert(all.subrange(0, i + 1).drop_last() =~= all.subrange(0, i as int));
        assert(all.subrange(0, i + 1).last() == values@[i as int]@);
        if char_count(t.as_str()) > 0 {
            let ghost prev = trimmed_nonempty(all.subrange(0, i as int));
            assert(prev.push(t@).drop_last() =~= prev);
            if !contains_string(&out, t.as_str()) {
                let ghost o = string_views(out@);
                out.push(t);
                assert(string_views(out@) =~= o.push(values_last(out@)));
            }
        }
        i = i + 1;
    }
    assert(all.subrange(0, values@.len() as int) =~= all);
    out
}

spec fn values_last(v: Seq<String>) -> Seq<char> {
    v.last()@
}

/// Checks the values entered for a tag (see `spec_validate_tag_values`).
#[verifier::loop_isolation(false)]
pub fn validate_tag_values(
    value_type: &str,
    is_multi: i64,
    has_system_key: bool,
    values: Vec<String>,
    allowed: &Vec<String>,
) -> (r: Result<(bool, Vec<String>), String>)
    ensures
        tag_values_view(r) == spec_validate_tag_values(
            value_type@,
            is_multi,
            has_system_key,
            string_views(values@),
            string_views(allowed@),
        ),
{
    let vs = normalize_values(&values);
    let ghost vv = string_views(vs@);
    let multi = is_multi != 0 && !has_system_key;
    if !multi && vs.len() > 1 {
        return Err(owned("该标签只能设置一个值"));
    }
    if vs.len() > TAG_VALUES_MAX {
        return Err(owned("标签值数量或长度超出限制"));
    }
    let mut i: usize = 0;
    while i < vs.len()
        invariant
            i <= vs@.len(),
            vv == string_views(vs@),
            forall|j: int| 0 <= j < i ==> (#[trigger] vv[j]).len() <= TAG_VALUE_LEN_MAX,
        decreases vs@.len() - i,
    {
        if char_count(vs[i].as_str()) > TAG_VALUE_LEN_MAX {
            assert(vv[i as int].len() > TAG_VALUE_LEN_MAX);
            return Err(owned("标签值数量或长度超出限制"));
        }
        i = i + 1;
    }
    if str_eq(value_type, "enum") {
        let mut k: usize = 0;
        assert(vv.subrange(0, vv.len() as int) =~= vv);
        while k < vs.len()
            invariant
                k <= vs@.len(),
                vv == string_views(vs@),
                first_not_allowed(vv, string_views(allowed@)) == first_not_allowed(
                    vv.subrange(k as int, vv.len() as int),
                    string_views(allowed@),
                ),
            decreases vs@.len() - k,
        {
            let v = vs[k].as_str();
            assert(vv.subrange(k as int, vv.len() as int)[0] == v@);
            if !contains_string(allowed, v) {
                let mut m = concat("标签值“", v);
                m.append("”不在候选项中");
                return Err(m);
            }
            assert(vv.subrange(k as int, vv.len() as int).drop_first() =~= vv.subrange(
                k + 1,
                vv.len() as int,
            ));
            k = k + 1;
        }
    }
    Ok((multi, vs))
}


// ---------------------------------------------------------------------------
// Tags of a video, grouped by type
// ---------------------------------------------------------------------------

/// An optional text taken by its characters.
pub open spec fn opt_text(o: Option<String>) -> Option<Seq<char>> {
    match o {
        Some(s) => Some(s@),
        None => None,
    }
}

/// An owned copy of an optional text.
pub fn clone_opt_text(o: &Option<String>) -> (r: Option<String>)
    ensures
        opt_text(r) == opt_text(*o),
{
    match o {
        Some(s) => Some(s.clone()),
        None => None,
    }
}

/// One stored tag value of a video, joined with its tag type.
pub struct TagRow {
    pub type_id: i64,
    pub name: String,
    pub value_type: String,
    pub system_key: Option<String>,
    pub is_multi: i64,
    pub value: String,
}

/// A stored tag value as plain values.
pub struct TagRowView {
    pub type_id: i64,
    pub name: Seq<char>,
    pub value_type: Seq<char>,
    pub system_key: Option<Seq<char>>,
    pub is_multi: i64,
    pub value: Seq<char>,
}

impl View for TagRow {
    type V = TagRowView;

    open spec fn view(&self) -> TagRowView {
        TagRowView {
            type_id: self.type_id,
            name: self.name@,
            value_type: self.value_type@,
            system_key: opt_text(self.system_key),
            is_multi: self.is_multi,
            value: self.value@,
        }
    }
}

/// The values a video holds for one tag type.
pub struct VideoTag {
    pub type_id: i64,
    pub name: String,
    pub value_type: String,
    pub system_key: Option<String>,
    pub is_multi: bool,
    pub values: Vec<String>,
}

/// A video's tag as plain values.
pub struct VideoTagView {
    pub type_id: i64,
    pub name: Seq<char>,
    pub value_type: Seq<char>,
    pub system_key: Option<Seq<char>>,
    pub is_multi: bool,
    pub values: Seq<Seq<char>>,
}

impl View for VideoTag {
    type V = VideoTagView;

    open spec fn view(&self) -> VideoTagView {
        VideoTagView {
            type_id: self.type_id,
            name: self.name@,
            value_type: self.value_type@,
            system_key: opt_text(self.system_key),
            is_multi: self.is_multi,
            values: string_views(self.values@),
        }
    }
}

pub open spec fn rows_view(rows: Seq<TagRow>) -> Seq<TagRowView> {
    rows.map_values(|r: TagRow| r@)
}

pub open spec fn tags_view(tags: Seq<VideoTag>) -> Seq<VideoTagView> {
    tags.map_values(|t: VideoTag| t@)
}

/// Index of the first tag of type `type_id` in `tags`, or -1.
pub open spec fn find_tag(tags: Seq<VideoTagView>, type_id: i64) -> int
    decreases tags.len(),
{
    if tags.len() == 0 {
        -1
    } else {
        let k = find_tag(tags.drop_last(), type_id);
        if k >= 0 {
            k
        } else if tags.last().type_id == type_id {
            tags.len() - 1
        } else {
            -1
        }
    }
}

/// A new tag holding the value of `row`.
pub open spec fn tag_from_row(row: TagRowView) -> VideoTagView {
    VideoTagView {
        type_id: row.type_id,
        name: row.name,
        value_type: row.value_type,
        system_key: row.system_key,
        is_multi: row.is_multi != 0,
        values: seq![row.value],
    }
}

/// `tag` with `value` appended to its values.
pub open spec fn tag_with_value(tag: VideoTagView, value: Seq<char>) -> VideoTagView {
    VideoTagView { values: tag.values.push(value), ..tag }
}

/// Groups the stored values of a video by tag type, in row order: the first row of
/// a type opens its group (and gives its name, kind, key and multiplicity); each
/// later row of that type appends its value.
pub open spec fn spec_group_tags(rows: Seq<TagRowView>) -> Seq<VideoTagView>
    decreases rows.len(),
{
    if rows.len() == 0 {
        Seq::empty()
    } else {
        let groups = spec_group_tags(rows.drop_last());
        let row = rows.last();
        let k = find_tag(groups, row.type_id);
        if k >= 0 {
            groups.update(k, tag_with_value(groups[k], row.value))
        } else {
            groups.push(tag_from_row(row))
        }
    }
}

proof fn lemma_find_tag(tags: Seq<VideoTagView>, type_id: i64, j: int)
    requires
        0 <= j <= tags.len(),
        forall|i: int| 0 <= i < j ==> (#[trigger] tags[i]).type_id != type_id,
    ensures
        j < tags.len() && tags[j].type_id == type_id ==> find_tag(tags, type_id) == j,
        j == tags.len() ==> find_tag(tags, type_id) == -1,
    decreases tags.len(),
{
    if tags.len() > 0 {
        let k = if j < tags.len() {
            j
        } else {
            j - 1
        };
        lemma_find_tag(tags.drop_last(), type_id, k);
    }
}

/// Groups the stored tag values of a video by tag type.
pub fn group_video_tags(rows: Vec<TagRow>) -> (r: Vec<VideoTag>)
    ensures
        tags_view(r@) == spec_group_tags(rows_view(rows@)),
{
    let ghost all = rows_view(rows@);
    let mut groups: Vec<VideoTag> = Vec::new();
    let mut i: usize = 0;
    assert(all.subrange(0, 0) =~= Seq::<TagRowView>::empty());
    assert(tags_view(groups@) =~= Seq::<VideoTagView>::empty());
    while i < rows.len()
        invariant
            i <= rows@.len(),
            all == rows_view(rows@),
            tags_view(groups@) == spec_group_tags(all.subrange(0, i as int)),
        decreases rows@.len() - i,
    {
        let row = &rows[i];
        let ghost g = tags_view(groups@);
        assert(all.subrange(0, i + 1).drop_last() =~= all.subrange(0, i as int));
        assert(all.subrange(0, i + 1).last() == row@);
        let mut j: usize = 0;
        while j < groups.len() && groups[j].type_id != row.type_id
            invariant
                j <= groups@.len(),
                g == tags_view(groups@),
                forall|k: int| 0 <= k < j ==> (#[trigger] g[k]).type_id != row.type_id,
            decreases groups@.len() - j,
        {
            j = j + 1;
        }
        proof {
            lemma_find_tag(g, row.type_id, j as int);
        }
        let value = row.value.clone();
        if j < groups.len() {
            let ghost og = groups@;
            let ghost vv = value@;
            groups[j].values.push(value);
            proof {
                assert(string_views(groups@[j as int].values@) =~= string_views(
                    og[j as int].values@,
                ).push(vv));
                assert(tags_view(groups@) =~= g.update(
                    j as int,
                    tag_with_value(g[j as int], row.value@),
                ));
            }
        } else {
            let mut values: Vec<String> = Vec::new();
            values.push(value);
            let tag = VideoTag {
                type_id: row.type_id,
                name: row.name.clone(),
                value_type: row.value_type.clone(),
                system_key: clone_opt_text(&row.system_key),
                is_multi: row.is_multi != 0,
                values,
            };
            assert(string_views(tag.values@) =~= seq![row.value@]);
            groups.push(tag);
            assert(tags_view(groups@) =~= g.push(tag_from_row(row@)));
        }
        i = i + 1;
    }
    assert(all.subrange(0, rows@.len() as int) =~= all);
    groups
}


// ---------------------------------------------------------------------------
// Tag types
// ---------------------------------------------------------------------------

/// An option of an enumerated tag type.
pub struct TagOption {
    pub id: i64,
    pub value: String,
    pub sort_order: i64,
}

/// A tag type with, for an enumerated type, its options.
pub struct TagType {
    pub id: i64,
    pub name: String,
    pub value_type: String,
    pub is_preset: bool,
    pub system_key: Option<String>,
    pub is_multi: bool,
    pub sort_order: i64,
    pub options: Vec<TagOption>,
}

/// Whether the options of a tag type of kind `value_type` are listed with it.
pub fn has_options(value_type: &str) -> (r: bool)
    ensures
        r == (value_type@ == "enum"@),
{
    str_eq(value_type, "enum")
}

/// A stored tag type; `options` are its stored options, kept only for an
/// enumerated type, and the stored flags are non-zero when set.
pub fn tag_type_from_row(
    id: i64,
    name: String,
    value_type: String,
    preset: i64,
    system_key: Option<String>,
    is_multi: i64,
    sort_order: i64,
    options: Vec<TagOption>,
) -> (r: TagType)
    ensures
        r.id == id,
        r.name@ == name@,
        r.value_type@ == value_type@,
        r.is_preset == (preset != 0),
        opt_text(r.system_key) == opt_text(system_key),
        r.is_multi == (is_multi != 0),
        r.sort_order == sort_order,
        r.options@ == if value_type@ == "enum"@ {
            options@
        } else {
            Seq::<TagOption>::empty()
        },
{
    let options = if has_options(value_type.as_str()) {
        options
    } else {
        Vec::new()
    };
    TagType {
        id,
        name,
        value_type,
        is_preset: preset != 0,
        system_key,
        is_multi: is_multi != 0,
        sort_order,
        options,
    }
}

/// Sort position of a new tag type: after every existing one.
pub fn next_sort_order(max_order: i64) -> (r: i64)
    requires
        max_order < i64::MAX,
    ensures
        r == max_order + 1,
{
    max_order + 1
}

/// A tag type can be renamed and switched between one and several values, but a
/// system tag keeps a single value.
pub fn check_multi_allowed(has_system_key: bool, is_multi: bool) -> (r: Result<(), String>)
    ensures
        view_err(r) == if has_system_key && is_multi {
            Err("系统标签不能改为多值"@)
        } else {
            Ok(())
        },
{
    if has_system_key && is_multi {
        Err(owned("系统标签不能改为多值"))
    } else {
        Ok(())
    }
}

/// The message when `conflicts` videos hold several values of a type that is to
/// take a single value.
pub open spec fn single_value_conflict_error(conflicts: nat) -> Seq<char> {
    "有 "@ + decimal(conflicts) + " 个视频包含多个值，无法改为单值"@
}

/// A type switches to a single value only when no video holds several of its values.
pub fn check_single_value_conflicts(conflicts: i64) -> (r: Result<(), String>)
    ensures
        view_err(r) == if conflicts > 0 {
            Err(single_value_conflict_error(conflicts as nat))
        } else {
            Ok(())
        },
{
    if conflicts > 0 {
        let mut m = owned("有 ");
        push_decimal(&mut m, conflicts as u64);
        m.append(" 个视频包含多个值，无法改为单值");
        Err(m)
    } else {
        Ok(())
    }
}

/// Tag type ids are positive.
pub fn check_tag_type_id(type_id: i64) -> (r: Result<(), String>)
    ensures
        view_err(r) == if type_id <= 0 {
            Err("无效的标签类型 ID"@)
        } else {
            Ok(())
        },
{
    if type_id <= 0 {
        Err(owned("无效的标签类型 ID"))
    } else {
        Ok(())
    }
}

/// Preset tag types (stored flag non-zero) cannot be deleted.
pub fn check_deletable(preset: i64) -> (r: Result<(), String>)
    ensures
        view_err(r) == if preset != 0 {
            Err("预设标签不可删除"@)
        } else {
            Ok(())
        },
{
    if preset != 0 {
        Err(owned("预设标签不可删除"))
    } else {
        Ok(())
    }
}

/// The keys of the system tag types: star rating and picture quality.
pub open spec fn is_system_key(key: Seq<char>) -> bool {
    key == "stars"@ || key == "quality"@
}

/// Only the system tag types can be set by key.
pub fn check_system_key(key: &str) -> (r: Result<(), String>)
    ensures
        view_err(r) == if is_system_key(key@) {
            Ok(())
        } else {
            Err("未知系统标签"@)
        },
{
    if str_eq(key, "stars") || str_eq(key, "quality") {
        Ok(())
    } else {
        Err(owned("未知系统标签"))
    }
}

/// The value a video takes when a tag is set only if absent: the first validated
/// value, if any.
pub fn first_value(values: Vec<String>) -> (r: Option<String>)
    ensures
        match r {
            Some(v) => values@.len() > 0 && v@ == values@[0]@,
            None => values@.len() == 0,
        },
{
    if values.len() > 0 {
        Some(values[0].clone())
    } else {
        None
    }
}

// ---------------------------------------------------------------------------
// Batch updates
// ---------------------------------------------------------------------------

/// A change applied to the values of one tag type on many videos.
pub struct BatchTagRequest {
    pub video_hashes: Vec<String>,
    pub type_id: i64,
    pub operation: String,
    pub values: Vec<String>,
}

/// What a batch does to each video: replace its values, add to them, remove some,
/// or clear them.
pub enum BatchOperation {
    Replace,
    Add,
    Remove,
    Clear,
}

/// Most videos one batch may change.
pub const BATCH_MAX: usize = 1000;

/// A batch names 1 to 1000 videos.
pub fn check_batch_size(count: usize) -> (r: Result<(), String>)
    ensures
        view_err(r) == if count == 0 || count > BATCH_MAX {
            Err("批量视频数量必须为 1-1000"@)
        } else {
            Ok(())
        },
{
    if count == 0 || count > BATCH_MAX {
        Err(owned("批量视频数量必须为 1-1000"))
    } else {
        Ok(())
    }
}

/// The operation a batch names: adding and removing need a tag that takes
/// several values; only `replace`, `add`, `remove` and `clear` exist.
pub open spec fn spec_batch_operation(operation: Seq<char>, is_multi: bool) -> Result<
    BatchOperation,
    Seq<char>,
> {
    if !is_multi && (operation == "add"@ || operation == "remove"@) {
        Err("单值标签只支持替换或清除"@)
    } else if operation == "replace"@ {
        Ok(BatchOperation::Replace)
    } else if operation == "add"@ {
        Ok(BatchOperation::Add)
    } else if operation == "remove"@ {
        Ok(BatchOperation::Remove)
    } else if operation == "clear"@ {
        Ok(BatchOperation::Clear)
    } else {
        Err("未知批量操作"@)
    }
}

/// The name by which a batch asks for an operation.
pub open spec fn operation_name(op: BatchOperation) -> Seq<char> {
    match op {
        BatchOperation::Replace => "replace"@,
        BatchOperation::Add => "add"@,
        BatchOperation::Remove => "remove"@,
        BatchOperation::Clear => "clear"@,
    }
}

/// A batch does what its operation is called.  Reading an operation gives the
/// operation of that very name, so only `remove` deletes just the batch's values,
/// only `replace` and `clear` delete all of the type's values first, and only
/// `replace` and `add` insert the batch's values.  Each of the four names is
/// accepted, `add` and `remove` only for a tag that takes several values.
pub proof fn lemma_batch_operation_named(operation: Seq<char>, is_multi: bool)
    ensures
        spec_batch_operation(operation, is_multi) matches Ok(op) ==> {
            &&& operation_name(op) == operation
            &&& (op is Remove <==> operation == "remove"@)
            &&& (op is Replace || op is Clear) <==> (operation == "replace"@ || operation
                == "clear"@)
            &&& (op is Replace || op is Add) <==> (operation == "replace"@ || operation
                == "add"@)
        },
        spec_batch_operation(operation, is_multi) is Ok <==> (operation == "replace"@
            || operation == "clear"@ || (is_multi && (operation == "add"@ || operation
            == "remove"@))),
{
    reveal_strlit("replace");
    reveal_strlit("add");
    reveal_strlit("remove");
    reveal_strlit("clear");
    assert("replace"@.len() == 7 && "add"@.len() == 3 && "remove"@.len() == 6 && "clear"@.len()
        == 5);
}

/// Reads the operation of a batch on a tag type that takes several values or not.
pub fn batch_operation(operation: &str, is_multi: bool) -> (r: Result<BatchOperation, String>)
    ensures
        view_err(r) == spec_batch_operation(operation@, is_multi),
{
    let is_add = str_eq(operation, "add");
    let is_remove = str_eq(operation, "remove");
    if !is_multi && (is_add || is_remove) {
        return Err(owned("单值标签只支持替换或清除"));
    }
    if str_eq(operation, "replace") {
        Ok(BatchOperation::Replace)
    } else if is_add {
        Ok(BatchOperation::Add)
    } else if is_remove {
        Ok(BatchOperation::Remove)
    } else if str_eq(operation, "clear") {
        Ok(BatchOperation::Clear)
    } else {
        Err(owned("未知批量操作"))
    }
}

impl BatchOperation {
    /// Whether the video's values of the type are all removed first.
    pub fn clears_values(&self) -> (r: bool)
        ensures
            r == (*self is Replace || *self is Clear),
    {
        match self {
            BatchOperation::Replace => true,
            BatchOperation::Clear => true,
            _ => false,
        }
    }

    /// Whether the batch's values are removed from the video.
    pub fn removes_values(&self) -> (r: bool)
        ensures
            r == *self is Remove,
    {
        match self {
            BatchOperation::Remove => true,
            _ => false,
        }
    }

    /// Whether the batch's values are added to the video (keeping existing ones).
    pub fn inserts_values(&self) -> (r: bool)
        ensures
            r == (*self is Replace || *self is Add),
    {
        match self {
            BatchOperation::Replace => true,
            BatchOperation::Add => true,
            _ => false,
        }
    }
}

/// The videos of a batch, each once, in the order first named.
pub fn unique_hashes(hashes: &Vec<String>) -> (r: Vec<String>)
    ensures
        string_views(r@) == dedup(string_views(hashes@)),
{
    let ghost all = string_views(hashes@);
    let mut out: Vec<String> = Vec::new();
    let mut i: usize = 0;
    assert(all.subrange(0, 0) =~= Seq::<Seq<char>>::empty());
    assert(string_views(out@) =~= Seq::<Seq<char>>::empty());
    while i < hashes.len()
        invariant
            i <= hashes@.len(),
            all == string_views(hashes@),
            string_views(out@) == dedup(all.subrange(0, i as int)),
        decreases hashes@.len() - i,
    {
        assert(all.subrange(0, i + 1).drop_last() =~= all.subrange(0, i as int));
        assert(all.subrange(0, i + 1).last() == hashes@[i as int]@);
        if !contains_string(&out, hashes[i].as_str()) {
            let ghost o = string_views(out@);
            let h = hashes[i].clone();
            out.push(h);
            assert(string_views(out@) =~= o.push(hashes@[i as int]@));
        }
        i = i + 1;
    }
    assert(all.subrange(0, hashes@.len() as int) =~= all);
    out
}


// ---------------------------------------------------------------------------
// Laws
// ---------------------------------------------------------------------------

/// A cleaned text: 1 to `max` characters, not starting or ending with whitespace.
pub open spec fn is_clean(v: Seq<char>, max: nat) -> bool {
    &&& 0 < v.len() <= max
    &&& !is_whitespace(v[0])
    &&& !is_whitespace(v.last())
}

proof fn lemma_clean_text(value: Seq<char>, label: Seq<char>, max: nat)
    ensures
        spec_clean_text(value, label, max) matches Ok(t) ==> is_clean(t, max),
{
    lemma_trim(value);
}

proof fn lemma_clean_all(values: Seq<Seq<char>>, label: Seq<char>, max: nat)
    ensures
        spec_clean_all(values, label, max) matches Ok(cs) ==> forall|i: int|
            0 <= i < cs.len() ==> is_clean(#[trigger] cs[i], max),
    decreases values.len(),
{
    if values.len() > 0 {
        lemma_clean_all(values.drop_last(), label, max);
        lemma_clean_text(values.last(), label, max);
    }
}

proof fn lemma_trimmed_nonempty(values: Seq<Seq<char>>)
    ensures
        forall|i: int|
            0 <= i < trimmed_nonempty(values).len() ==> ({
                let v = #[trigger] trimmed_nonempty(values)[i];
                v.len() > 0 && !is_whitespace(v[0]) && !is_whitespace(v.last())
            }),
    decreases values.len(),
{
    if values.len() > 0 {
        lemma_trimmed_nonempty(values.drop_last());
        lemma_trim(values.last());
        let r = trimmed_nonempty(values.drop_last());
        let t = trim(values.last());
        assert forall|i: int| 0 <= i < trimmed_nonempty(values).len() implies ({
            let v = #[trigger] trimmed_nonempty(values)[i];
            v.len() > 0 && !is_whitespace(v[0]) && !is_whitespace(v.last())
        }) by {
            if i < r.len() {
                assert(trimmed_nonempty(values)[i] == r[i]);
            } else {
                assert(trimmed_nonempty(values)[i] == t);
            }
        }
    }
}

proof fn lemma_trimmed_nonempty_members(values: Seq<Seq<char>>)
    ensures
        forall|x: Seq<char>|
            trimmed_nonempty(values).contains(x) <==> (x.len() > 0 && exists|i: int|
                0 <= i < values.len() && #[trigger] trim(values[i]) == x),
    decreases values.len(),
{
    if values.len() > 0 {
        let p = values.drop_last();
        lemma_trimmed_nonempty_members(p);
        let r = trimmed_nonempty(p);
        let t = trim(values.last());
        let all = trimmed_nonempty(values);
        assert forall|x: Seq<char>|
            all.contains(x) <==> (x.len() > 0 && exists|i: int|
                0 <= i < values.len() && #[trigger] trim(values[i]) == x) by {
            if all.contains(x) {
                let k = choose|k: int| 0 <= k < all.len() && all[k] == x;
                if k < r.len() {
                    assert(r[k] == x);
                    assert(r.contains(x));
                    let i = choose|i: int| 0 <= i < p.len() && #[trigger] trim(p[i]) == x;
                    assert(values[i] == p[i]);
                    assert(trim(values[i]) == x);
                } else {
                    assert(x == t);
                    assert(trim(values[values.len() - 1]) == x);
                }
            }
            if x.len() > 0 && exists|i: int| 0 <= i < values.len() && #[trigger] trim(values[i]) == x {
                let i = choose|i: int| 0 <= i < values.len() && #[trigger] trim(values[i]) == x;
                if i < values.len() - 1 {
                    assert(p[i] == values[i]);
                    assert(trim(p[i]) == x);
                    assert(r.contains(x));
                    let k = choose|k: int| 0 <= k < r.len() && r[k] == x;
                    assert(all[k] == x);
                } else {
                    assert(t == x);
                    assert(all[r.len() as int] == x);
                }
            }
        }
    }
}

/// Normalisation drops only the entered values that are blank once trimmed, and
/// keeps every other one, trimmed, exactly once: a text is among the normalised
/// values if and only if it is non-empty and the trimmed form of some entered value.
pub proof fn lemma_normalize_keeps_every_value(values: Seq<Seq<char>>)
    ensures
        no_duplicates(normalize_tag_values(values)),
        forall|x: Seq<char>|
            normalize_tag_values(values).contains(x) <==> (x.len() > 0 && exists|i: int|
                0 <= i < values.len() && #[trigger] trim(values[i]) == x),
        forall|i: int|
            0 <= i < values.len() && #[trigger] trim(values[i]).len() > 0
                ==> normalize_tag_values(values).contains(trim(values[i])),
{
    let tn = trimmed_nonempty(values);
    lemma_trimmed_nonempty_members(values);
    lemma_dedup(tn);
    assert forall|x: Seq<char>|
        normalize_tag_values(values).contains(x) <==> (x.len() > 0 && exists|i: int|
            0 <= i < values.len() && #[trigger] trim(values[i]) == x) by {
        assert(dedup(tn).contains(x) <==> tn.contains(x));
    }
    assert forall|i: int|
        0 <= i < values.len() && #[trigger] trim(values[i]).len() > 0
            implies normalize_tag_values(values).contains(trim(values[i])) by {
        assert(trimmed_nonempty(values).contains(trim(values[i])));
    }
}

proof fn lemma_normalize_step(values: Seq<Seq<char>>)
    requires
        values.len() > 0,
    ensures
        ({
            let p = normalize_tag_values(values.drop_last());
            let t = trim(values.last());
            normalize_tag_values(values) == if t.len() == 0 || p.contains(t) {
                p
            } else {
                p.push(t)
            }
        }),
{
    let t = trim(values.last());
    if t.len() > 0 {
        let tp = trimmed_nonempty(values.drop_last());
        assert(tp.push(t).drop_last() =~= tp);
    }
}

/// Of two entered values, `x` (trimmed) is entered before `y` is ever entered.
pub open spec fn entered_before(values: Seq<Seq<char>>, x: Seq<char>, y: Seq<char>) -> bool {
    exists|i: int|
        0 <= i < values.len() && #[trigger] trim(values[i]) == x && forall|j: int|
            0 <= j < values.len() && #[trigger] trim(values[j]) == y ==> i < j
}

/// Normalisation keeps the order of entry: of two normalised values, the first was
/// entered before the second was entered at all.
pub proof fn lemma_normalize_keeps_entry_order(values: Seq<Seq<char>>)
    ensures
        forall|a: int, b: int|
            0 <= a < b < normalize_tag_values(values).len() ==> entered_before(
                values,
                #[trigger] normalize_tag_values(values)[a],
                #[trigger] normalize_tag_values(values)[b],
            ),
    decreases values.len(),
{
    if values.len() > 0 {
        let p = values.drop_last();
        let t = trim(values.last());
        let last = values.len() - 1;
        lemma_normalize_keeps_entry_order(p);
        lemma_normalize_step(values);
        lemma_normalize_keeps_every_value(p);
        let np = normalize_tag_values(p);
        let nv = normalize_tag_values(values);
        assert forall|a: int, b: int| 0 <= a < b < nv.len() implies entered_before(
            values,
            #[trigger] nv[a],
            #[trigger] nv[b],
        ) by {
            if b < np.len() {
                assert(nv[a] == np[a] && nv[b] == np[b]);
                assert(entered_before(p, np[a], np[b]));
                let i = choose|i: int|
                    0 <= i < p.len() && #[trigger] trim(p[i]) == np[a] && forall|j: int|
                        0 <= j < p.len() && #[trigger] trim(p[j]) == np[b] ==> i < j;
                assert(p[i] == values[i]);
                assert(trim(values[i]) == nv[a]);
                assert forall|j: int|
                    0 <= j < values.len() && #[trigger] trim(values[j]) == nv[b] implies i < j by {
                    if j < last {
                        assert(p[j] == values[j]);
                    }
                }
            } else {
                assert(nv == np.push(t));
                assert(nv[b] == t);
                assert(nv[a] == np[a]);
                assert(np.contains(np[a]));
                let i = choose|i: int| 0 <= i < p.len() && #[trigger] trim(p[i]) == np[a];
                assert(p[i] == values[i]);
                assert(trim(values[i]) == nv[a]);
                assert forall|j: int|
                    0 <= j < values.len() && #[trigger] trim(values[j]) == nv[b] implies i < j by {
                    if j < last {
                        assert(p[j] == values[j]);
                        assert(trim(p[j]) == t);
                        assert(np.contains(t));
                    }
                }
            }
        }
    }
}

proof fn lemma_first_not_allowed(values: Seq<Seq<char>>, allowed: Seq<Seq<char>>)
    ensures
        first_not_allowed(values, allowed) is None ==> forall|i: int|
            0 <= i < values.len() ==> allowed.contains(#[trigger] values[i]),
    decreases values.len(),
{
    if values.len() > 0 {
        lemma_first_not_allowed(values.drop_first(), allowed);
        assert forall|i: int| 0 < i < values.len() implies values[i] == values.drop_first()[i
            - 1] by {}
    }
}

/// Validated tag values are stored as such: each once, non-empty, without
/// surrounding whitespace, at most 1024 characters, at most 100 of them, a single
/// one unless the tag takes several, only options of an enumerated tag, and every
/// entered value that is not blank.
pub proof fn lemma_validated_tag_values(
    value_type: Seq<char>,
    is_multi: i64,
    has_system_key: bool,
    values: Seq<Seq<char>>,
    allowed: Seq<Seq<char>>,
)
    ensures
        spec_validate_tag_values(value_type, is_multi, has_system_key, values, allowed) matches Ok(
            (multi, vs),
        ) ==> {
            &&& multi == (is_multi != 0 && !has_system_key)
            &&& no_duplicates(vs)
            &&& vs.len() <= TAG_VALUES_MAX
            &&& !multi ==> vs.len() <= 1
            &&& forall|i: int| 0 <= i < vs.len() ==> is_clean(#[trigger] vs[i], TAG_VALUE_LEN_MAX as nat)
            &&& value_type == "enum"@ ==> forall|i: int|
                0 <= i < vs.len() ==> allowed.contains(#[trigger] vs[i])
            &&& forall|i: int|
                0 <= i < values.len() && #[trigger] trim(values[i]).len() > 0 ==> vs.contains(
                    trim(values[i]),
                )
        },
{
    let tn = trimmed_nonempty(values);
    let vs = normalize_tag_values(values);
    lemma_normalize_keeps_every_value(values);
    lemma_dedup(tn);
    lemma_trimmed_nonempty(values);
    lemma_first_not_allowed(vs, allowed);
    if spec_validate_tag_values(value_type, is_multi, has_system_key, values, allowed) is Ok {
        assert forall|i: int| 0 <= i < vs.len() implies is_clean(
            #[trigger] vs[i],
            TAG_VALUE_LEN_MAX as nat,
        ) by {
            assert(vs.contains(vs[i]));
            assert(tn.contains(vs[i]));
            let k = choose|k: int| 0 <= k < tn.len() && tn[k] == vs[i];
            assert(tn[k].len() > 0);
            assert(!any_longer_than(vs, TAG_VALUE_LEN_MAX as nat));
        }
    }
}

/// A prepared tag type has a clean name of 1 to 64 characters, clean options of
/// 1 to 128 characters each occurring once, and at least one option when it is
/// enumerated.
pub proof fn lemma_prepared_tag_type(name: Seq<char>, value_type: Seq<char>, options: Seq<Seq<char>>)
    ensures
        spec_prepare_tag_type(name, value_type, options) matches Ok((n, opts)) ==> {
            &&& is_clean(n, TAG_NAME_MAX as nat)
            &&& value_type == "enum"@ || value_type == "free"@
            &&& no_duplicates(opts)
            &&& forall|i: int| 0 <= i < opts.len() ==> is_clean(#[trigger] opts[i], TAG_OPTION_MAX as nat)
            &&& value_type == "enum"@ ==> opts.len() > 0
        },
{
    lemma_clean_text(name, "标签名称"@, TAG_NAME_MAX as nat);
    if let Ok(cleaned) = spec_clean_all(options, "标签选项"@, TAG_OPTION_MAX as nat) {
        lemma_clean_all(options, "标签选项"@, TAG_OPTION_MAX as nat);
        lemma_dedup(cleaned);
        let d = dedup(cleaned);
        assert forall|i: int| 0 <= i < d.len() implies is_clean(#[trigger] d[i], TAG_OPTION_MAX as nat) by {
            assert(d.contains(d[i]));
            assert(cleaned.contains(d[i]));
        }
    }
}

/// The values of type `type_id` among `rows`, in row order.
pub open spec fn values_of_type(rows: Seq<TagRowView>, type_id: i64) -> Seq<Seq<char>>
    decreases rows.len(),
{
    if rows.len() == 0 {
        Seq::empty()
    } else {
        values_of_type(rows.drop_last(), type_id) + if rows.last().type_id == type_id {
            seq![rows.last().value]
        } else {
            Seq::<Seq<char>>::empty()
        }
    }
}

/// No two tags have the same type.
pub open spec fn distinct_types(tags: Seq<VideoTagView>) -> bool {
    forall|i: int, j: int| 0 <= i < j < tags.len() ==> tags[i].type_id != tags[j].type_id
}

proof fn lemma_find_tag_found(tags: Seq<VideoTagView>, type_id: i64)
    ensures
        find_tag(tags, type_id) >= 0 ==> find_tag(tags, type_id) < tags.len() && tags[find_tag(
            tags,
            type_id,
        )].type_id == type_id,
        find_tag(tags, type_id) < 0 ==> find_tag(tags, type_id) == -1 && forall|k: int|
            0 <= k < tags.len() ==> (#[trigger] tags[k]).type_id != type_id,
    decreases tags.len(),
{
    if tags.len() > 0 {
        lemma_find_tag_found(tags.drop_last(), type_id);
        if find_tag(tags, type_id) < 0 {
            assert forall|k: int| 0 <= k < tags.len() implies (#[trigger] tags[k]).type_id
                != type_id by {
                if k < tags.len() - 1 {
                    assert(tags.drop_last()[k] == tags[k]);
                }
            }
        }
    }
}

proof fn lemma_find_tag_same_types(a: Seq<VideoTagView>, b: Seq<VideoTagView>, type_id: i64)
    requires
        a.len() == b.len(),
        forall|k: int| 0 <= k < a.len() ==> (#[trigger] a[k]).type_id == b[k].type_id,
    ensures
        find_tag(a, type_id) == find_tag(b, type_id),
    decreases a.len(),
{
    if a.len() > 0 {
        assert forall|k: int| 0 <= k < a.drop_last().len() implies (
        #[trigger] a.drop_last()[k]).type_id == b.drop_last()[k].type_id by {
            assert(a[k].type_id == b[k].type_id);
        }
        lemma_find_tag_same_types(a.drop_last(), b.drop_last(), type_id);
    }
}

/// Grouping keeps every value: each type occurs in one tag only, and a type's tag
/// holds exactly the values of that type's rows, in row order (a type without rows
/// has no tag).
pub proof fn lemma_group_tags(rows: Seq<TagRowView>)
    ensures
        distinct_types(spec_group_tags(rows)),
        forall|type_id: i64|
            #![trigger values_of_type(rows, type_id)]
            values_of_type(rows, type_id) == if find_tag(spec_group_tags(rows), type_id) >= 0 {
                spec_group_tags(rows)[find_tag(spec_group_tags(rows), type_id)].values
            } else {
                Seq::<Seq<char>>::empty()
            },
    decreases rows.len(),
{
    let g = spec_group_tags(rows);
    if rows.len() == 0 {
        assert forall|type_id: i64|
            #![trigger values_of_type(rows, type_id)]
            values_of_type(rows, type_id) == if find_tag(g, type_id) >= 0 {
                g[find_tag(g, type_id)].values
            } else {
                Seq::<Seq<char>>::empty()
            } by {}
    } else {
        let prev_rows = rows.drop_last();
        lemma_group_tags(prev_rows);
        let p = spec_group_tags(prev_rows);
        let row = rows.last();
        let k = find_tag(p, row.type_id);
        lemma_find_tag_found(p, row.type_id);
        if k >= 0 {
            assert forall|i: int| 0 <= i < p.len() implies (#[trigger] g[i]).type_id
                == p[i].type_id by {}
            assert forall|type_id: i64|
                #![trigger values_of_type(rows, type_id)]
                values_of_type(rows, type_id) == if find_tag(g, type_id) >= 0 {
                    g[find_tag(g, type_id)].values
                } else {
                    Seq::<Seq<char>>::empty()
                } by {
                lemma_find_tag_same_types(g, p, type_id);
                lemma_find_tag_found(p, type_id);
                assert(values_of_type(prev_rows, type_id) == if find_tag(p, type_id) >= 0 {
                    p[find_tag(p, type_id)].values
                } else {
                    Seq::<Seq<char>>::empty()
                });
                if type_id == row.type_id {
                    assert(values_of_type(rows, type_id) =~= p[k].values.push(row.value));
                } else {
                    assert(values_of_type(rows, type_id) =~= values_of_type(prev_rows, type_id));
                }
            }
        } else {
            assert forall|type_id: i64|
                #![trigger values_of_type(rows, type_id)]
                values_of_type(rows, type_id) == if find_tag(g, type_id) >= 0 {
                    g[find_tag(g, type_id)].values
                } else {
                    Seq::<Seq<char>>::empty()
                } by {
                assert(g.drop_last() =~= p);
                lemma_find_tag_found(p, type_id);
                assert(values_of_type(prev_rows, type_id) == if find_tag(p, type_id) >= 0 {
                    p[find_tag(p, type_id)].values
                } else {
                    Seq::<Seq<char>>::empty()
                });
                if type_id == row.type_id {
                    assert(values_of_type(rows, type_id) =~= seq![row.value]);
                } else {
                    assert(values_of_type(rows, type_id) =~= values_of_type(prev_rows, type_id));
                }
            }
        }
    }
}

} // verus!
