//! What the library needs to know of text: trimming, lower case and the
//! classes of characters, as `std` computes them.

use vstd::prelude::*;

verus! {

/// The views of the texts of `v`, in order.
pub open spec fn text_views(v: Seq<String>) -> Seq<Seq<char>> {
    v.map_values(|s: String| s@)
}

/// The view of an optional text.
pub open spec fn opt_text_view(o: Option<String>) -> Option<Seq<char>> {
    match o {
        Some(s) => Some(s@),
        None => None,
    }
}

/// The lower-case form of a text, as `str::to_lowercase` computes it.
pub uninterp spec fn lowercase(s: Seq<char>) -> Seq<char>;

/// Whether a character is white space, as `char::is_whitespace` decides it.
pub uninterp spec fn is_whitespace(c: char) -> bool;

/// `s` without its leading white space.
pub open spec fn trimmed_start(s: Seq<char>) -> Seq<char>
    decreases s.len(),
{
    if s.len() > 0 && is_whitespace(s.first()) {
        trimmed_start(s.drop_first())
    } else {
        s
    }
}

/// `s` without its trailing white space.
pub open spec fn trimmed_end(s: Seq<char>) -> Seq<char>
    decreases s.len(),
{
    if s.len() > 0 && is_whitespace(s.last()) {
        trimmed_end(s.drop_last())
    } else {
        s
    }
}

/// `s` without its leading and trailing white space.
pub open spec fn trimmed(s: Seq<char>) -> Seq<char> {
    trimmed_end(trimmed_start(s))
}

/// Two texts are equal once both are in lower case.
pub open spec fn same_ignoring_case(a: Seq<char>, b: Seq<char>) -> bool {
    lowercase(a) == lowercase(b)
}

/// `str::to_lowercase` returns the lower-case form of the text. The mapping
/// of each character is the Unicode one and is not spelled out here.
pub assume_specification[ str::to_lowercase ](s: &str) -> (r: String)
    ensures
        r@ == lowercase(s@),
;

/// `str::trim` returns the text without leading and trailing white space.
pub assume_specification[ str::trim ](s: &str) -> (r: &str)
    ensures
        r@ == trimmed(s@),
;

/// `char::is_whitespace` tells whether the character has the Unicode
/// property White_Space.
pub assume_specification[ char::is_whitespace ](c: char) -> (r: bool)
    ensures
        r == is_whitespace(c),
;

/// Every character of `s` is white space.
pub open spec fn all_whitespace(s: Seq<char>) -> bool {
    forall|i: int| 0 <= i < s.len() ==> is_whitespace(#[trigger] s[i])
}

/// What is left of a text without its leading white space begins with a
/// character that is none, and nothing is left exactly when the text is
/// white space only.
pub proof fn lemma_trimmed_start(s: Seq<char>)
    ensures
        trimmed_start(s).len() > 0 ==> !is_whitespace(trimmed_start(s).first()),
        trimmed_start(s).len() == 0 <==> all_whitespace(s),
    decreases s.len(),
{
    if s.len() > 0 && is_whitespace(s.first()) {
        let rest = s.drop_first();
        lemma_trimmed_start(rest);
        if all_whitespace(rest) {
            assert forall|i: int| 0 <= i < s.len() implies is_whitespace(#[trigger] s[i]) by {
                if i > 0 {
                    assert(s[i] == rest[i - 1]);
                }
            }
        }
        if all_whitespace(s) {
            assert forall|i: int| 0 <= i < rest.len() implies is_whitespace(#[trigger] rest[i]) by {
                assert(rest[i] == s[i + 1]);
            }
        }
    } else if s.len() > 0 {
        assert(!is_whitespace(s[0]));
    }
}

/// A text that holds a character that is no white space keeps one when its
/// trailing white space is taken away.
pub proof fn lemma_trimmed_end_keeps(s: Seq<char>, i: int)
    requires
        0 <= i < s.len(),
        !is_whitespace(s[i]),
    ensures
        trimmed_end(s).len() > i,
    decreases s.len(),
{
    if is_whitespace(s.last()) {
        assert(i < s.len() - 1);
        assert(s.drop_last()[i] == s[i]);
        lemma_trimmed_end_keeps(s.drop_last(), i);
    }
}

/// Nothing is left of a text once trimmed exactly when the text is white
/// space only.
pub proof fn lemma_trimmed_empty(s: Seq<char>)
    ensures
        trimmed(s).len() == 0 <==> all_whitespace(s),
{
    lemma_trimmed_start(s);
    let t = trimmed_start(s);
    if t.len() > 0 {
        lemma_trimmed_end_keeps(t, 0);
    }
}

/// Whether the text is empty or white space only.
pub fn is_blank(s: &str) -> (r: bool)
    ensures
        r == (trimmed(s@).len() == 0),
{
    let n = char_count(s);
    let mut i: usize = 0;
    while i < n
        invariant
            i <= n,
            n == s@.len(),
            forall|k: int| 0 <= k < i ==> is_whitespace(#[trigger] s@[k]),
        decreases n - i,
    {
        if !s.get_char(i).is_whitespace() {
            proof {
                assert(!is_whitespace(s@[i as int]));
                lemma_trimmed_empty(s@);
            }
            return false;
        }
        i += 1;
    }
    proof {
        lemma_trimmed_empty(s@);
    }
    true
}

/// The number of characters of `s`.
pub fn char_count(s: &str) -> (r: usize)
    ensures
        r == s@.len(),
{
    s.unicode_len()
}

/// Whether `list` holds the text `s`.
pub fn contains_text(list: &[String], s: &str) -> (r: bool)
    ensures
        r == text_views(list@).contains(s@),
{
    let ghost views = text_views(list@);
    let wanted = s.to_owned();
    let mut i: usize = 0;
    while i < list.len()
        invariant
            i <= list.len(),
            views == text_views(list@),
            wanted@ == s@,
            forall|k: int| 0 <= k < i ==> views[k] != s@,
        decreases list.len() - i,
    {
        assert(views[i as int] == list@[i as int]@);
        if list[i] == wanted {
            return true;
        }
        i += 1;
    }
    false
}

/// Whether `a` and `b` are the same text once both are in lower case.
pub fn eq_ignoring_case(a: &str, b: &str) -> (r: bool)
    ensures
        r == same_ignoring_case(a@, b@),
{
    let la = a.to_lowercase();
    let lb = b.to_lowercase();
    la == lb
}

/// The character that stands for the digit `d`.
pub open spec fn digit(d: nat) -> char {
    if d == 0 {
        '0'
    } else if d == 1 {
        '1'
    } else if d == 2 {
        '2'
    } else if d == 3 {
        '3'
    } else if d == 4 {
        '4'
    } else if d == 5 {
        '5'
    } else if d == 6 {
        '6'
    } else if d == 7 {
        '7'
    } else if d == 8 {
        '8'
    } else {
        '9'
    }
}

/// The number `n` written in decimal digits, without leading zeros.
pub open spec fn decimal(n: nat) -> Seq<char>
    decreases n,
{
    if n < 10 {
        seq![digit(n)]
    } else {
        decimal(n / 10).push(digit(n % 10))
    }
}

/// Calls `u64::to_string`. Trusted: the text is the number in decimal
/// digits, without sign or leading zeros.
#[verifier::external_body]
pub(crate) fn number_text(n: u64) -> (r: String)
    ensures
        r@ == decimal(n as nat),
{
    n.to_string()
}

/// `needle` occurs in `haystack` as a run of consecutive characters.
pub open spec fn is_substring(needle: Seq<char>, haystack: Seq<char>) -> bool {
    exists|i: int|
        0 <= i <= haystack.len() - needle.len() && #[trigger] haystack.subrange(
            i,
            i + needle.len(),
        ) == needle
}

/// Calls `str::contains` with a text as the pattern. Trusted: it tells
/// whether the pattern occurs in the text as a run of consecutive
/// characters.
#[verifier::external_body]
pub(crate) fn text_contains(haystack: &str, needle: &str) -> (r: bool)
    ensures
        r == is_substring(needle@, haystack@),
{
    haystack.contains(needle)
}

/// The text `text` cut to fit a column of `width` characters: the text
/// itself where it fits, else its first `width - 3` characters and three
/// dots.
pub open spec fn fitted(text: Seq<char>, width: nat) -> Seq<char> {
    if text.len() > width {
        text.subrange(0, width - 3) + "..."@
    } else {
        text
    }
}

/// Cuts `text` to fit a column of `width` characters.
pub fn fit(text: &str, width: usize) -> (r: String)
    requires
        width >= 3,
    ensures
        r@ == fitted(text@, width as nat),
{
    let n = char_count(text);
    if n > width {
        let mut out = text.substring_char(0, width - 3).to_owned();
        out.append("...");
        out
    } else {
        text.to_owned()
    }
}

/// The texts of `parts`, each two separated by `separator`.
pub open spec fn joined(parts: Seq<Seq<char>>, separator: Seq<char>) -> Seq<char>
    decreases parts.len(),
{
    if parts.len() == 0 {
        Seq::empty()
    } else if parts.len() == 1 {
        parts[0]
    } else {
        joined(parts.drop_last(), separator) + separator + parts.last()
    }
}

/// Joins the texts of `parts`, each two separated by `separator`.
pub fn join(parts: &[String], separator: &str) -> (r: String)
    ensures
        r@ == joined(text_views(parts@), separator@),
{
    let ghost views = text_views(parts@);
    let mut out = String::new();
    let mut i: usize = 0;
    proof {
        assert(views.subrange(0, 0) =~= Seq::<Seq<char>>::empty());
    }
    while i < parts.len()
        invariant
            i <= parts.len(),
            views == text_views(parts@),
            out@ == joined(views.subrange(0, i as int), separator@),
        decreases parts.len() - i,
    {
        proof {
            let next = views.subrange(0, i + 1);
            assert(next.drop_last() =~= views.subrange(0, i as int));
            assert(next.last() == parts@[i as int]@);
            if i == 0 {
                assert(next[0] == parts@[0]@);
            }
        }
        if i > 0 {
            out.append(separator);
        }
        out.append(parts[i].as_str());
        proof {
            if i == 0 {
                assert(out@ =~= parts@[0]@);
            }
        }
        i += 1;
    }
    proof {
        assert(views.subrange(0, i as int) =~= views);
    }
    out
}

/// The order of texts: character by character, a text coming before every
/// text that continues it.
pub open spec fn text_le(a: Seq<char>, b: Seq<char>) -> bool
    decreases a.len(),
{
    if a.len() == 0 {
        true
    } else if b.len() == 0 {
        false
    } else if a[0] != b[0] {
        a[0] < b[0]
    } else {
        text_le(a.drop_first(), b.drop_first())
    }
}

/// The texts are in ascending order, and no text occurs twice.
pub open spec fn strictly_ascending(texts: Seq<Seq<char>>) -> bool {
    forall|i: int, j: int|
        0 <= i < j < texts.len() ==> text_le(#[trigger] texts[i], #[trigger] texts[j]) && texts[i]
            != texts[j]
}

/// Calls `slice::sort` on texts. Trusted: the slice holds afterwards the
/// texts that it held, in ascending order, where texts are ordered
/// character by character.
#[verifier::external_body]
fn sort_texts(texts: &mut Vec<String>)
    ensures
        text_views(final(texts)@).to_multiset() == text_views(old(texts)@).to_multiset(),
        forall|i: int, j: int|
            0 <= i < j < final(texts)@.len() ==> text_le(
                #[trigger] final(texts)@[i]@,
                #[trigger] final(texts)@[j]@,
            ),
{
    texts.sort();
}

/// Puts texts of which none occurs twice in ascending order.
pub fn sort_distinct(texts: Vec<String>) -> (r: Vec<String>)
    requires
        text_views(texts@).no_duplicates(),
    ensures
        strictly_ascending(text_views(r@)),
        forall|t: Seq<char>| text_views(r@).contains(t) <==> text_views(texts@).contains(t),
        r@.len() == texts@.len(),
{
    let ghost before = text_views(texts@);
    let mut out = texts;
    sort_texts(&mut out);
    proof {
        let after = text_views(out@);
        before.lemma_multiset_has_no_duplicates();
        after.lemma_multiset_has_no_duplicates_conv();
        vstd::seq_lib::to_multiset_len(before);
        vstd::seq_lib::to_multiset_len(after);
        assert forall|t: Seq<char>| after.contains(t) <==> before.contains(t) by {
            vstd::seq_lib::to_multiset_contains(before, t);
            vstd::seq_lib::to_multiset_contains(after, t);
        }
        assert forall|i: int, j: int| 0 <= i < j < after.len() implies text_le(
            #[trigger] after[i],
            #[trigger] after[j],
        ) && after[i] != after[j] by {
            assert(after[i] == out@[i]@ && after[j] == out@[j]@);
        }
    }
    out
}

} // verus!
