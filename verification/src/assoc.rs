use vstd::prelude::*;
use vstd::string::StringExecFns;
use crate::text::{chars_of, concat, owned};

verus! {

// ---------------------------------------------------------------------------
// Windows file association entries (written under HKCU\Software\Classes)
// ---------------------------------------------------------------------------

/// The program id the player registers, its application identifier.
pub fn prog_id() -> (r: &'static str)
    ensures
        r@ == "com.hjf.videoplayer"@,
{
    "com.hjf.videoplayer"
}

/// The name shown in the "Open with" list.
pub fn friendly_name() -> (r: &'static str)
    ensures
        r@ == "视频播放器"@,
{
    "视频播放器"
}

/// The icon of the program id: the first icon of the executable.
pub fn icon_value(exe: &str) -> (r: String)
    ensures
        r@ == exe@ + ",0"@,
{
    concat(exe, ",0")
}

/// The open command: the quoted executable followed by the quoted file argument.
pub fn open_command(exe: &str) -> (r: String)
    ensures
        r@ == "\""@ + exe@ + "\" \"%1\""@,
{
    let mut r = owned("\"");
    r.append(exe);
    r.append("\" \"%1\"");
    r
}

/// The key of a file extension.
pub fn extension_key(ext: &str) -> (r: String)
    ensures
        r@ == "."@ + ext@,
{
    concat(".", ext)
}

/// The "Open with" list key of a file extension.
pub fn open_with_key(ext: &str) -> (r: String)
    ensures
        r@ == "."@ + ext@ + "\\OpenWithProgids"@,
{
    let mut r = concat(".", ext);
    r.append("\\OpenWithProgids");
    r
}

/// The key that holds the open command of the program id.
pub fn command_key() -> (r: String)
    ensures
        r@ == "com.hjf.videoplayer"@ + "\\shell\\open\\command"@,
{
    concat(prog_id(), "\\shell\\open\\command")
}

/// Unicode lower case of a text, as `str::to_lowercase` maps it.
pub uninterp spec fn lowercase(s: Seq<char>) -> Seq<char>;

/// `str::to_lowercase`: the Unicode lower case of `s`, which depends on `s` alone.
#[verifier::external_body]
fn to_lowercase(s: &str) -> (r: String)
    ensures
        r@ == lowercase(s@),
{
    s.to_lowercase()
}

/// Whether `needle` occurs in `hay` at `at`.
pub open spec fn occurs_at(hay: Seq<char>, needle: Seq<char>, at: int) -> bool {
    0 <= at && at + needle.len() <= hay.len() && hay.subrange(at, at + needle.len()) == needle
}

/// Whether `needle` occurs in `hay` (`str::contains`; an empty needle always does).
pub open spec fn contains_text(hay: Seq<char>, needle: Seq<char>) -> bool {
    exists|at: int| occurs_at(hay, needle, at)
}

/// Searches `hay` for `needle`.
pub fn find_text(hay: &str, needle: &str) -> (r: bool)
    ensures
        r == contains_text(hay@, needle@),
{
    let h = chars_of(hay);
    let n = chars_of(needle);
    if n.len() > h.len() {
        assert forall|at: int| !occurs_at(hay@, needle@, at) by {}
        return false;
    }
    let hl = h.len();
    let nl = n.len();
    let mut at: usize = 0;
    while at <= hl - nl
        invariant
            h@ == hay@,
            n@ == needle@,
            hl == h@.len(),
            nl == n@.len(),
            nl <= hl,
            at <= hl - nl + 1,
            forall|k: int| 0 <= k < at ==> !occurs_at(hay@, needle@, k),
        decreases h@.len() - at,
    {
        let mut i: usize = 0;
        while i < nl && h[at + i] == n[i]
            invariant
                hl == h@.len(),
                nl == n@.len(),
                at + nl <= hl,
                i <= n@.len(),
                forall|j: int| 0 <= j < i ==> h@[at + j] == n@[j],
            decreases n@.len() - i,
        {
            i = i + 1;
        }
        if i == nl {
            assert(h@.subrange(at as int, at + n@.len()) =~= n@);
            assert(occurs_at(hay@, needle@, at as int));
            return true;
        }
        assert(!occurs_at(hay@, needle@, at as int)) by {
            if h@.subrange(at as int, at + n@.len()) == n@ {
                assert(h@.subrange(at as int, at + n@.len())[i as int] == h@[at + i]);
            }
        }
        at = at + 1;
    }
    assert forall|k: int| !occurs_at(hay@, needle@, k) by {
        if 0 <= k && k + needle@.len() <= hay@.len() {
            assert(k < at);
        }
    }
    false
}

/// The association is the player's when the stored open command names its
/// executable, ignoring case.
pub open spec fn spec_command_names_exe(command: Seq<char>, exe: Seq<char>) -> bool {
    contains_text(lowercase(command), lowercase(exe))
}

/// Whether the stored open command `command` names the executable `exe`.
pub fn command_names_exe(command: &str, exe: &str) -> (r: bool)
    ensures
        r == spec_command_names_exe(command@, exe@),
{
    let c = to_lowercase(command);
    let e = to_lowercase(exe);
    find_text(c.as_str(), e.as_str())
}

} // verus!
