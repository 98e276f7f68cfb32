//! Filtering an editable combo box's suggestions as its value changes.

use vstd::prelude::*;

use crate::boundary::is_white_space;

verus! {

/// `s` without its leading Unicode white space.
pub open spec fn trim_start_spec(s: Seq<char>) -> Seq<char>
    decreases s.len(),
{
    if s.len() > 0 && is_white_space(s[0]) {
        trim_start_spec(s.drop_first())
    } else {
        s
    }
}

/// `s` without its trailing Unicode white space.
pub open spec fn trim_end_spec(s: Seq<char>) -> Seq<char>
    decreases s.len(),
{
    if s.len() > 0 && is_white_space(s.last()) {
        trim_end_spec(s.drop_last())
    } else {
        s
    }
}

/// `s` without leading and trailing Unicode white space.
pub open spec fn trim_spec(s: Seq<char>) -> Seq<char> {
    trim_end_spec(trim_start_spec(s))
}

/// The Unicode lowercase mapping of a text (`str::to_lowercase`).
pub uninterp spec fn lowercase(s: Seq<char>) -> Seq<char>;

/// ASCII letters folded to lowercase; every other character unchanged.
pub open spec fn ascii_fold(c: char) -> char {
    if 'A' <= c && c <= 'Z' {
        ((c as u32) + 32) as char
    } else {
        c
    }
}

/// An ASCII case-insensitive match.
pub open spec fn eq_ignore_ascii_case_spec(a: Seq<char>, b: Seq<char>) -> bool {
    a.len() == b.len() && forall|i: int| 0 <= i < a.len() ==> ascii_fold(#[trigger] a[i]) == ascii_fold(b[i])
}

/// `needle` occurs in `hay` as a contiguous run.
pub open spec fn occurs_in(needle: Seq<char>, hay: Seq<char>) -> bool {
    exists|i: int| 0 <= i && i + needle.len() <= hay.len() && #[trigger] hay.subrange(i, i + needle.len()) == needle
}

/// `str::trim`: the text without leading and trailing white space.
#[verifier::external_body]
pub(crate) fn trim(s: &str) -> (r: &str)
    ensures
        r@ == trim_spec(s@),
{
    s.trim()
}

/// `str::trim_end`: the text without trailing white space.
#[verifier::external_body]
pub(crate) fn trim_end(s: &str) -> (r: &str)
    ensures
        r@ == trim_end_spec(s@),
{
    s.trim_end()
}

/// `str::to_lowercase`: the Unicode lowercase mapping, which maps the empty
/// text to the empty text.
#[verifier::external_body]
fn to_lowercase(s: &str) -> (r: String)
    ensures
        r@ == lowercase(s@),
        s@.len() == 0 ==> r@.len() == 0,
{
    s.to_lowercase()
}

/// `str::eq_ignore_ascii_case`.
#[verifier::external_body]
pub(crate) fn eq_ignore_ascii_case(a: &str, b: &str) -> (r: bool)
    ensures
        r == eq_ignore_ascii_case_spec(a@, b@),
{
    a.eq_ignore_ascii_case(b)
}

/// `str::contains` with a string pattern.
#[verifier::external_body]
fn contains_str(hay: &str, needle: &str) -> (r: bool)
    ensures
        r == occurs_in(needle@, hay@),
{
    hay.contains(needle)
}

/// Which suggestions a combo box shows for its current value, and the
/// "use what I typed" entry.
pub struct ComboFilter {
    /// One flag per option, in order.
    pub visible: Vec<bool>,
    /// The custom entry shows for a non-blank query that matches no option.
    pub custom_visible: bool,
    /// The custom entry's label: `Use “query”`.
    pub custom_label: String,
}

/// The query matches some option exactly, ignoring ASCII case.
pub open spec fn exact_match(query: Seq<char>, options: Seq<String>) -> bool {
    exists|k: int| 0 <= k < options.len() && eq_ignore_ascii_case_spec(#[trigger] options[k]@, trim_spec(query))
}

/// An option shows for a blank query, an exact match, or when the lowercase
/// query occurs in its lowercase label.
pub open spec fn option_visible(query: Seq<char>, options: Seq<String>, label: Seq<char>) -> bool {
    let normalized = lowercase(trim_spec(query));
    normalized.len() == 0 || exact_match(query, options) || occurs_in(normalized, lowercase(label))
}

/// Suggestion matching ignores letter case. For a non-blank query that names
/// no option exactly, an option shows exactly when the lowercased, trimmed
/// query occurs in its lowercased label; so two queries whose trimmed texts
/// lowercase alike, and that agree on naming an option exactly, show the same
/// options (a capital letter typed into the field changes nothing).
pub proof fn law_suggestions_ignore_letter_case(
    q1: Seq<char>,
    q2: Seq<char>,
    options: Seq<String>,
    label: Seq<char>,
)
    ensures
        trim_spec(q1).len() > 0 && lowercase(trim_spec(q1)).len() > 0 && !exact_match(q1, options)
            ==> (option_visible(q1, options, label) <==> occurs_in(
            lowercase(trim_spec(q1)),
            lowercase(label),
        )),
        lowercase(trim_spec(q1)) == lowercase(trim_spec(q2)) && exact_match(q1, options)
            == exact_match(q2, options) ==> option_visible(q1, options, label) == option_visible(
            q2,
            options,
            label,
        ),
{
}

/// Filters a combo box's suggestions after its value changes to `query`.
pub fn refresh_combobox_filter(query: &str, options: &[String]) -> (f: ComboFilter)
    ensures
        f.visible@.len() == options@.len(),
        forall|k: int|
            0 <= k < options@.len() ==> #[trigger] f.visible@[k] == option_visible(
                query@,
                options@,
                options@[k]@,
            ),
        f.custom_visible == (trim_spec(query@).len() > 0 && !exact_match(query@, options@)),
        trim_spec(query@).len() == 0 ==> forall|k: int| 0 <= k < options@.len() ==> #[trigger] f.visible@[k],
        f.custom_label@ == seq!['U', 's', 'e', ' ', '\u{201c}'] + query@ + seq!['\u{201d}'],
{
    let trimmed = trim(query);
    let normalized = to_lowercase(trimmed);
    let mut exact = false;
    let mut k: usize = 0;
    while k < options.len() && !exact
        invariant
            k <= options@.len(),
            trimmed@ == trim_spec(query@),
            exact ==> exact_match(query@, options@),
            !exact ==> forall|j: int|
                0 <= j < k ==> !eq_ignore_ascii_case_spec(#[trigger] options@[j]@, trim_spec(query@)),
        decreases options@.len() - k,
    {
        if eq_ignore_ascii_case(options[k].as_str(), trimmed) {
            exact = true;
        }
        k = k + 1;
    }
    assert(exact == exact_match(query@, options@));
    let blank = normalized.as_str().as_bytes().len() == 0;
    proof {
        if normalized@.len() == 0 {
            assert(vstd::utf8::encode_utf8(normalized@) =~= Seq::<u8>::empty());
        } else {
            vstd::utf8::encode_utf8_decode_utf8(normalized@);
            if vstd::utf8::encode_utf8(normalized@).len() == 0 {
                assert(vstd::utf8::encode_utf8(normalized@) =~= Seq::<u8>::empty());
            }
        }
    }
    let mut visible: Vec<bool> = Vec::new();
    let mut i: usize = 0;
    while i < options.len()
        invariant
            i <= options@.len(),
            visible@.len() == i,
            trimmed@ == trim_spec(query@),
            normalized@ == lowercase(trim_spec(query@)),
            blank == (normalized@.len() == 0),
            exact == exact_match(query@, options@),
            forall|j: int|
                0 <= j < i ==> #[trigger] visible@[j] == option_visible(query@, options@, options@[j]@),
        decreases options@.len() - i,
    {
        let shown = if blank || exact {
            true
        } else {
            let label = to_lowercase(options[i].as_str());
            contains_str(label.as_str(), normalized.as_str())
        };
        visible.push(shown);
        i = i + 1;
    }
    let trimmed_blank = trimmed.as_bytes().len() == 0;
    proof {
        if trimmed@.len() == 0 {
            assert(vstd::utf8::encode_utf8(trimmed@) =~= Seq::<u8>::empty());
        } else {
            vstd::utf8::encode_utf8_decode_utf8(trimmed@);
            if vstd::utf8::encode_utf8(trimmed@).len() == 0 {
                assert(vstd::utf8::encode_utf8(trimmed@) =~= Seq::<u8>::empty());
            }
        }
    }
    let open = "Use \u{201c}";
    let close = "\u{201d}";
    proof {
        reveal_strlit("Use \u{201c}");
        reveal_strlit("\u{201d}");
    }
    let mut label = String::new();
    label.append(open);
    label.append(query);
    label.append(close);
    ComboFilter { visible, custom_visible: !trimmed_blank && !exact, custom_label: label }
}

} // verus!
