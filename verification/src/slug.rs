//! Filesystem-safe ids derived from human titles.

use vstd::prelude::*;
use unicode_normalization::UnicodeNormalization;
use crate::text::{chars_of, is_control, is_ctrl, is_whitespace, is_ws, string_of};

verus! {

/// The text in Unicode Normalization Form C, as the `unicode-normalization`
/// crate computes it.
pub uninterp spec fn nfc(s: Seq<char>) -> Seq<char>;

/// The NFC form of a string, with `UnicodeNormalization::nfc` collected into
/// a `String`; the contract claims the result is `nfc` of the text, a name
/// for Unicode Normalization Form C that it does not spell out.
#[verifier::external_body]
fn nfc_string(s: &str) -> (r: String)
    ensures
        r@ == nfc(s@),
{
    s.nfc().collect()
}

/// A character that a filename may not hold: one of `/ \ : * ? " < > |`
/// or a control character.
pub open spec fn is_illegal(c: char) -> bool {
    c == '/' || c == '\\' || c == ':' || c == '*' || c == '?' || c == '"' || c == '<' || c == '>'
        || c == '|' || is_ctrl(c)
}

/// Every illegal character replaced by a space.
pub open spec fn replace_illegal(s: Seq<char>) -> Seq<char> {
    s.map_values(|c: char| if is_illegal(c) { ' ' } else { c })
}

/// The first `n` characters of `s` with each run of whitespace turned into one
/// space and leading whitespace dropped; with it, whether the output so far
/// ends in such a space (or is still empty).
pub open spec fn collapse_prefix(s: Seq<char>, n: nat) -> (Seq<char>, bool)
    decreases n,
{
    if n == 0 {
        (Seq::empty(), true)
    } else {
        let (r, prev_space) = collapse_prefix(s, (n - 1) as nat);
        let c = s[n - 1];
        if is_ws(c) {
            if !prev_space {
                (r.push(' '), true)
            } else {
                (r, true)
            }
        } else {
            (r.push(c), false)
        }
    }
}

/// `s` with whitespace runs collapsed and leading whitespace dropped.
pub open spec fn collapse_ws(s: Seq<char>) -> Seq<char> {
    collapse_prefix(s, s.len()).0
}

/// `s` without trailing spaces.
pub open spec fn strip_spaces(s: Seq<char>) -> Seq<char>
    decreases s.len(),
{
    if s.len() > 0 && s.last() == ' ' {
        strip_spaces(s.drop_last())
    } else {
        s
    }
}

/// `s` without trailing dots, with the spaces that stood before each dot.
pub open spec fn strip_dots(s: Seq<char>) -> Seq<char>
    decreases s.len(),
{
    if s.len() > 0 && s.last() == '.' {
        proof {
            lemma_strip_spaces_len(s.drop_last());
        }
        strip_dots(strip_spaces(s.drop_last()))
    } else {
        s
    }
}

/// Everything that sanitizing does after normalization.
pub open spec fn clean_up(s: Seq<char>) -> Seq<char> {
    strip_dots(strip_spaces(collapse_ws(replace_illegal(s))))
}

/// The id that `sanitize_title` derives from a title.
pub open spec fn sanitized(title: Seq<char>) -> Seq<char> {
    clean_up(nfc(title))
}

pub proof fn lemma_strip_spaces_len(s: Seq<char>)
    ensures
        strip_spaces(s).len() <= s.len(),
        strip_spaces(s) == s.subrange(0, strip_spaces(s).len() as int),
    decreases s.len(),
{
    if s.len() > 0 && s.last() == ' ' {
        lemma_strip_spaces_len(s.drop_last());
        assert(s.drop_last().subrange(0, strip_spaces(s).len() as int) == s.subrange(
            0,
            strip_spaces(s).len() as int,
        ));
    } else {
        assert(s.subrange(0, s.len() as int) == s);
    }
}

/// No illegal character, whitespace only as single spaces, none of them at the
/// start: what collapsing leaves, and what every prefix of it keeps.
pub open spec fn tidy(s: Seq<char>) -> bool {
    &&& forall|i: int| 0 <= i < s.len() ==> !is_illegal(#[trigger] s[i])
    &&& forall|i: int| 0 <= i < s.len() && is_ws(#[trigger] s[i]) ==> s[i] == ' '
    &&& s.len() > 0 ==> s[0] != ' '
    &&& forall|i: int| 0 < i < s.len() && #[trigger] s[i] == ' ' ==> s[i - 1] != ' '
}

/// A tidy text that ends in neither a space nor a dot: a sanitized id.
pub open spec fn clean(s: Seq<char>) -> bool {
    tidy(s) && (s.len() > 0 ==> s.last() != ' ' && s.last() != '.')
}

proof fn lemma_tidy_prefix(s: Seq<char>, k: int)
    requires
        tidy(s),
        0 <= k <= s.len(),
    ensures
        tidy(s.subrange(0, k)),
{
    let t = s.subrange(0, k);
    assert forall|i: int| 0 < i < t.len() && #[trigger] t[i] == ' ' implies t[i - 1] != ' ' by {
        assert(s[i] == ' ');
    }
    assert forall|i: int| 0 <= i < t.len() implies !is_illegal(#[trigger] t[i]) by {
        assert(t[i] == s[i]);
    }
    assert forall|i: int| 0 <= i < t.len() && is_ws(#[trigger] t[i]) implies t[i] == ' ' by {
        assert(t[i] == s[i]);
    }
}

proof fn lemma_collapse_tidy(s: Seq<char>, n: nat)
    requires
        n <= s.len(),
        forall|i: int| 0 <= i < s.len() ==> !is_illegal(#[trigger] s[i]) || s[i] == ' ',
    ensures
        tidy(collapse_prefix(s, n).0),
        collapse_prefix(s, n).1 <==> (collapse_prefix(s, n).0.len() == 0
            || collapse_prefix(s, n).0.last() == ' '),
    decreases n,
{
    if n > 0 {
        lemma_collapse_tidy(s, (n - 1) as nat);
        let (r, p) = collapse_prefix(s, (n - 1) as nat);
        let c = s[n - 1];
        let r2 = collapse_prefix(s, n).0;
        if is_ws(c) {
            if !p {
                assert forall|i: int| 0 < i < r2.len() && #[trigger] r2[i] == ' ' implies r2[i
                    - 1] != ' ' by {
                    if i == r2.len() - 1 {
                        assert(r2[i - 1] == r.last());
                    } else {
                        assert(r2[i] == r[i]);
                    }
                }
                assert forall|i: int| 0 <= i < r2.len() implies !is_illegal(#[trigger] r2[i]) by {
                    if i < r.len() {
                        assert(r2[i] == r[i]);
                    }
                }
                assert forall|i: int| 0 <= i < r2.len() && is_ws(#[trigger] r2[i]) implies r2[i]
                    == ' ' by {
                    if i < r.len() {
                        assert(r2[i] == r[i]);
                    }
                }
            }
        } else {
            assert(!is_illegal(c));
            assert forall|i: int| 0 < i < r2.len() && #[trigger] r2[i] == ' ' implies r2[i - 1]
                != ' ' by {
                assert(r2[i] == r[i]);
            }
            assert forall|i: int| 0 <= i < r2.len() implies !is_illegal(#[trigger] r2[i]) by {
                if i < r.len() {
                    assert(r2[i] == r[i]);
                }
            }
            assert forall|i: int| 0 <= i < r2.len() && is_ws(#[trigger] r2[i]) implies r2[i]
                == ' ' by {
                if i < r.len() {
                    assert(r2[i] == r[i]);
                }
            }
        }
    }
}

proof fn lemma_strip_spaces_tidy(s: Seq<char>)
    requires
        tidy(s),
    ensures
        tidy(strip_spaces(s)),
        strip_spaces(s).len() > 0 ==> strip_spaces(s).last() != ' ',
    decreases s.len(),
{
    if s.len() > 0 && s.last() == ' ' {
        lemma_tidy_prefix(s, s.len() - 1);
        assert(s.drop_last() == s.subrange(0, s.len() - 1));
        lemma_strip_spaces_tidy(s.drop_last());
    }
}

proof fn lemma_strip_dots_clean(s: Seq<char>)
    requires
        tidy(s),
        s.len() > 0 ==> s.last() != ' ',
    ensures
        clean(strip_dots(s)),
    decreases s.len(),
{
    if s.len() > 0 && s.last() == '.' {
        lemma_tidy_prefix(s, s.len() - 1);
        assert(s.drop_last() == s.subrange(0, s.len() - 1));
        lemma_strip_spaces_tidy(s.drop_last());
        lemma_strip_spaces_len(s.drop_last());
        lemma_strip_dots_clean(strip_spaces(s.drop_last()));
    }
}

/// What `clean_up` returns is clean.
pub proof fn lemma_clean_up_clean(s: Seq<char>)
    ensures
        clean(clean_up(s)),
{
    let r = replace_illegal(s);
    assert forall|i: int| 0 <= i < r.len() implies !is_illegal(#[trigger] r[i]) || r[i] == ' ' by {
    }
    lemma_collapse_tidy(r, r.len());
    lemma_strip_spaces_tidy(collapse_ws(r));
    lemma_strip_dots_clean(strip_spaces(collapse_ws(r)));
}

proof fn lemma_collapse_tidy_fixed(s: Seq<char>, n: nat)
    requires
        tidy(s),
        n <= s.len(),
    ensures
        collapse_prefix(s, n).0 == s.subrange(0, n as int),
        collapse_prefix(s, n).1 <==> (n == 0 || s[n - 1] == ' '),
    decreases n,
{
    if n > 0 {
        lemma_collapse_tidy_fixed(s, (n - 1) as nat);
        assert(s.subrange(0, n as int) == s.subrange(0, n - 1).push(s[n - 1]));
        if is_ws(s[n - 1]) {
            assert(s[n - 1] == ' ');
            if n >= 2 {
                assert(s[n - 2] != ' ');
            }
        }
    }
}

/// Cleaning up a clean text changes nothing.
pub proof fn lemma_clean_up_fixed(s: Seq<char>)
    requires
        clean(s),
    ensures
        clean_up(s) == s,
{
    assert(replace_illegal(s) =~= s);
    lemma_collapse_tidy_fixed(s, s.len());
    assert(s.subrange(0, s.len() as int) == s);
}

/// Cleaning up is idempotent: what sanitizing does after normalization,
/// done twice, is done once.
pub proof fn lemma_clean_up_idempotent(s: Seq<char>)
    ensures
        clean_up(clean_up(s)) == clean_up(s),
{
    lemma_clean_up_clean(s);
    lemma_clean_up_fixed(clean_up(s));
}

/// Sanitizing is idempotent: sanitizing an id a second time changes nothing,
/// for every title whose id is already in Unicode Normalization Form C. (Where
/// normalizing the id changes it, a second pass can change it too: for `e`, a
/// NUL and a combining acute accent, the NUL becomes a space that is trimmed
/// away after the first normalization, and the second one composes the pair.)
pub proof fn lemma_sanitize_idempotent(title: Seq<char>)
    requires
        nfc(sanitized(title)) == sanitized(title),
    ensures
        sanitized(sanitized(title)) == sanitized(title),
{
    lemma_clean_up_idempotent(nfc(title));
}

/// A sanitized id is clean: no illegal or control character, whitespace only
/// as single inner spaces, no leading or trailing space, no trailing dot.
pub proof fn lemma_sanitized_clean(title: Seq<char>)
    ensures
        clean(sanitized(title)),
{
    lemma_clean_up_clean(nfc(title));
}

/// Derive a filesystem-safe `id` from a human title.
///
/// Replaces each of `/ \ : * ? " < > |` and control characters with a space,
/// collapses runs of whitespace to single spaces, trims the edges, strips
/// trailing dots, all after NFC normalization. Keeps case, unicode letters
/// and filesystem-safe punctuation.
pub fn sanitize_title(title: &str) -> (r: String)
    ensures
        r@ == sanitized(title@),
{
    let normalized = nfc_string(title);
    let input = chars_of(normalized.as_str());

    // Replace illegal characters with a space
    let mut replaced: Vec<char> = Vec::new();
    let mut i: usize = 0;
    while i < input.len()
        invariant
            i <= input.len(),
            replaced@ == replace_illegal(input@).subrange(0, i as int),
        decreases input.len() - i,
    {
        let c = input[i];
        let illegal = c == '/' || c == '\\' || c == ':' || c == '*' || c == '?' || c == '"' || c
            == '<' || c == '>' || c == '|' || is_control(c);
        if illegal {
            replaced.push(' ');
        } else {
            replaced.push(c);
        }
        proof {
            assert(replace_illegal(input@).subrange(0, i + 1) == replace_illegal(input@).subrange(
                0,
                i as int,
            ).push(replace_illegal(input@)[i as int]));
        }
        i += 1;
    }
    assert(replace_illegal(input@).subrange(0, input@.len() as int) == replace_illegal(input@));

    // Collapse whitespace runs, dropping leading whitespace
    let mut result: Vec<char> = Vec::new();
    let mut prev_space = true;
    let mut j: usize = 0;
    while j < replaced.len()
        invariant
            j <= replaced.len(),
            (result@, prev_space) == collapse_prefix(replaced@, j as nat),
        decreases replaced.len() - j,
    {
        let c = replaced[j];
        if is_whitespace(c) {
            if !prev_space {
                result.push(' ');
                prev_space = true;
            }
        } else {
            result.push(c);
            prev_space = false;
        }
        j += 1;
    }

    // Trim trailing spaces
    while result.len() > 0 && result[result.len() - 1] == ' '
        invariant
            strip_spaces(result@) == strip_spaces(collapse_ws(replaced@)),
        decreases result.len(),
    {
        result.pop();
    }
    assert(strip_spaces(result@) == result@);

    // Strip trailing dots (Windows constraint), with the spaces before them
    while result.len() > 0 && result[result.len() - 1] == '.'
        invariant
            strip_dots(result@) == strip_dots(strip_spaces(collapse_ws(replaced@))),
        decreases result.len(),
    {
        let ghost before = result@;
        result.pop();
        let ghost after_pop = result@;
        assert(after_pop == before.drop_last());
        while result.len() > 0 && result[result.len() - 1] == ' '
            invariant
                strip_spaces(result@) == strip_spaces(after_pop),
                result@.len() <= after_pop.len(),
            decreases result.len(),
        {
            result.pop();
        }
        assert(strip_spaces(result@) == result@);
    }
    string_of(result.as_slice())
}

} // verus!
