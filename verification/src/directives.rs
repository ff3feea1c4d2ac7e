//! Stripping ecosystem-specific directive comments.
//!
//! Two directive grammars are recognised over a comment's text, both
//! case-insensitively:
//!
//! * a *reference directive*: a leading `/`, optional whitespace,
//!   `<reference`, one whitespace character, arbitrary content, and a `/>`
//!   token somewhere after; such a comment is deleted only when its `types`
//!   attribute names a relative path (`./`, `../`) or a URL (`http://`,
//!   `https://`) — bare specifiers are ecosystem-agnostic and survive;
//! * a *pragma directive*: optional whitespace, the `@deno-types` keyword,
//!   optional whitespace, `=`, optional whitespace, then a specifier token
//!   (quoted string or bare non-whitespace run; either begins with a
//!   non-whitespace character, so the grammars agree on exactly that test).
//!   Every pragma comment is deleted unconditionally.
//!
//! Malformed directive text simply fails the match and is left untouched.

use vstd::prelude::*;
use crate::seq_facts::{
    lemma_filter_all_false, lemma_filter_element_of, lemma_filter_singleton, lemma_map_push,
};
use crate::text::{
    is_space, is_space_char, lemma_next_non_space, next_non_whitespace_pos, spec_next_non_space,
};

verus! {

/// A comment reported by the parsing stage: its text (without the comment
/// introducer) and its half-open span in the source text.
pub struct Comment {
    pub text: Vec<char>,
    pub lo: usize,
    pub hi: usize,
}

/// A deletion edit: replace the half-open range `[lo, hi)` of the source
/// text by `new_text`.  Every edit this module produces is a pure deletion,
/// so `new_text` is always empty.
pub struct TextChange {
    pub lo: usize,
    pub hi: usize,
    pub new_text: Vec<char>,
}

/// Case-insensitive character match against a lowercase pattern character:
/// equal outright, or `c` is the ASCII uppercase form of the letter `p`.
pub open spec fn char_ci_eq(c: char, p: char) -> bool {
    c as u32 == p as u32
        || ('a' as u32 <= p as u32 && p as u32 <= 'z' as u32 && c as u32 == p as u32 - 32)
}

/// Executable test for [`char_ci_eq`].
fn eq_ci(c: char, p: char) -> (r: bool)
    ensures
        r == char_ci_eq(c, p),
{
    let cu = c as u32;
    let pu = p as u32;
    cu == pu || (97 <= pu && pu <= 122 && cu == pu - 32)
}

/// The pattern `pat` (all-lowercase) occurs at position `i` of `t`,
/// case-insensitively.
pub open spec fn matches_ci_at(t: Seq<char>, i: int, pat: Seq<char>) -> bool {
    &&& 0 <= i
    &&& i + pat.len() <= t.len()
    &&& forall|k: int| 0 <= k < pat.len() ==> char_ci_eq(t[i + k], #[trigger] pat[k])
}

/// Executable test for [`matches_ci_at`].
fn check_ci_at(t: &Vec<char>, i: usize, pat: &Vec<char>) -> (r: bool)
    requires
        i <= t@.len(),
    ensures
        r == matches_ci_at(t@, i as int, pat@),
{
    if t.len() - i < pat.len() {
        return false;
    }
    let mut k: usize = 0;
    while k < pat.len()
        invariant
            i + pat@.len() <= t@.len(),
            t@.len() <= usize::MAX,
            k <= pat@.len(),
            forall|j: int| 0 <= j < k ==> char_ci_eq(t@[i + j], #[trigger] pat@[j]),
        decreases pat@.len() - k,
    {
        if !eq_ci(t[i + k], pat[k]) {
            assert(!char_ci_eq(t@[i + k as int], pat@[k as int]));
            return false;
        }
        k = k + 1;
    }
    true
}

/// A quote character of either kind.
pub open spec fn is_quote_char(c: char) -> bool {
    c == '"' || c == '\''
}

/// Executable test for [`is_quote_char`].
fn is_quote(c: char) -> (r: bool)
    ensures
        r == is_quote_char(c),
{
    c == '"' || c == '\''
}

/// The first position at or after `i` holding a quote character, or the end
/// of the text.
pub open spec fn spec_next_quote(t: Seq<char>, i: int) -> int
    recommends
        0 <= i <= t.len(),
    decreases t.len() - i when 0 <= i <= t.len()
{
    if i >= t.len() {
        i
    } else if is_quote_char(t[i]) {
        i
    } else {
        spec_next_quote(t, i + 1)
    }
}

/// Scans forward from `start` to the first quote character, or the end.
fn next_quote_pos(text: &Vec<char>, start: usize) -> (r: usize)
    requires
        start <= text@.len(),
    ensures
        r == spec_next_quote(text@, start as int),
        start <= r <= text@.len(),
{
    let mut i = start;
    while i < text.len() && !is_quote(text[i])
        invariant
            start <= i <= text@.len(),
            spec_next_quote(text@, start as int) == spec_next_quote(text@, i as int),
        decreases text@.len() - i,
    {
        i = i + 1;
    }
    i
}

/// The `<reference` opener, lowercase.
pub open spec fn ref_pat() -> Seq<char> {
    seq!['<', 'r', 'e', 'f', 'e', 'r', 'e', 'n', 'c', 'e']
}

/// The `types` attribute name, lowercase.
pub open spec fn types_pat() -> Seq<char> {
    seq!['t', 'y', 'p', 'e', 's']
}

/// The pragma keyword, lowercase.
pub open spec fn pragma_pat() -> Seq<char> {
    seq!['@', 'd', 'e', 'n', 'o', '-', 't', 'y', 'p', 'e', 's']
}

/// A `/>` token begins at or after `from`.
pub open spec fn has_close_token(t: Seq<char>, from: int) -> bool {
    exists|j: int| #![trigger t[j]] from <= j && j + 2 <= t.len() && t[j] == '/' && t[j + 1] == '>'
}

/// The comment text is a reference directive: a leading `/`, optional
/// whitespace, `<reference` (case-insensitive), one whitespace character,
/// then arbitrary content closed by a `/>` token.
pub open spec fn is_reference_comment(t: Seq<char>) -> bool {
    &&& t.len() > 0
    &&& t[0] == '/'
    &&& {
        let i = spec_next_non_space(t, 1);
        &&& matches_ci_at(t, i, ref_pat())
        &&& i + 10 < t.len()
        &&& is_space_char(t[i + 10])
        &&& has_close_token(t, i + 11)
    }
}

/// Executable test for [`is_reference_comment`].
#[verifier::loop_isolation(false)]
pub fn is_triple_slash_reference(text: &Vec<char>) -> (r: bool)
    ensures
        r == is_reference_comment(text@),
{
    if text.len() == 0 || text[0] != '/' {
        return false;
    }
    let i = next_non_whitespace_pos(text, 1);
    proof {
        lemma_next_non_space(text@, 1);
    }
    let pat = vec!['<', 'r', 'e', 'f', 'e', 'r', 'e', 'n', 'c', 'e'];
    assert(pat@ =~= ref_pat());
    if !check_ci_at(text, i, &pat) {
        return false;
    }
    if text.len() - i <= 10 {
        return false;
    }
    if !is_space(text[i + 10]) {
        return false;
    }
    let mut j = i + 11;
    while text.len() - j >= 2
        invariant
            i + 11 <= j <= text@.len(),
            forall|jj: int|
                #![trigger text@[jj]]
                i + 11 <= jj < j ==> !(text@[jj] == '/' && text@[jj + 1] == '>'),
        decreases text@.len() - j,
    {
        if text[j] == '/' && text[j + 1] == '>' {
            assert(has_close_token(text@, i as int + 11));
            return true;
        }
        j = j + 1;
    }
    assert(!has_close_token(text@, i as int + 11));
    false
}

/// A `types` attribute match begins at position `i` of `t`: a whitespace
/// character, `types` (case-insensitive), optional whitespace, `=`, optional
/// whitespace, an opening quote, and a closing quote character later on.
pub open spec fn types_match_at(t: Seq<char>, i: int) -> bool {
    &&& 0 <= i < t.len()
    &&& is_space_char(t[i])
    &&& matches_ci_at(t, i + 1, types_pat())
    &&& {
        let e = spec_next_non_space(t, i + 6);
        &&& e < t.len()
        &&& t[e] == '='
        &&& {
            let q = spec_next_non_space(t, e + 1);
            &&& q < t.len()
            &&& is_quote_char(t[q])
            &&& spec_next_quote(t, q + 1) < t.len()
        }
    }
}

/// The captured specifier of the `types` attribute match at `i`: the
/// characters between the opening quote and the next quote character.
pub open spec fn types_capture(t: Seq<char>, i: int) -> Seq<char> {
    let e = spec_next_non_space(t, i + 6);
    let q = spec_next_non_space(t, e + 1);
    let c = spec_next_quote(t, q + 1);
    t.subrange(q + 1, c)
}

/// The position of the leftmost `types` attribute match at or after `i`, or
/// the end of the text if there is none.
pub open spec fn first_types_match_from(t: Seq<char>, i: int) -> int
    recommends
        0 <= i <= t.len(),
    decreases t.len() - i when 0 <= i <= t.len()
{
    if i >= t.len() {
        i
    } else if types_match_at(t, i) {
        i
    } else {
        first_types_match_from(t, i + 1)
    }
}

/// The comment text carries a `types` attribute.
pub open spec fn has_types_attr(t: Seq<char>) -> bool {
    first_types_match_from(t, 0) < t.len()
}

/// The specifier captured by the leftmost `types` attribute match.
pub open spec fn reference_specifier(t: Seq<char>) -> Seq<char> {
    types_capture(t, first_types_match_from(t, 0))
}

/// Tries the `types` attribute grammar at position `i`; on a match, returns
/// the bounds of the captured specifier.
fn try_types_at(t: &Vec<char>, i: usize) -> (r: Option<(usize, usize)>)
    requires
        i < t@.len(),
    ensures
        r is Some <==> types_match_at(t@, i as int),
        r matches Some(c) ==> {
            &&& c.0 <= c.1 <= t@.len()
            &&& t@.subrange(c.0 as int, c.1 as int) == types_capture(t@, i as int)
        },
{
    let n = t.len();
    if !is_space(t[i]) {
        return None;
    }
    let pat = vec!['t', 'y', 'p', 'e', 's'];
    assert(pat@ =~= types_pat());
    if !check_ci_at(t, i + 1, &pat) {
        return None;
    }
    let e = next_non_whitespace_pos(t, i + 6);
    proof {
        lemma_next_non_space(t@, i + 6);
    }
    if e == n || t[e] != '=' {
        return None;
    }
    let q = next_non_whitespace_pos(t, e + 1);
    proof {
        lemma_next_non_space(t@, e + 1);
    }
    if q == n || !is_quote(t[q]) {
        return None;
    }
    let c = next_quote_pos(t, q + 1);
    if c == n {
        return None;
    }
    Some((q + 1, c))
}

/// Finds the leftmost `types` attribute match and returns the bounds of its
/// captured specifier, or `None` when the comment has no such attribute.
#[verifier::loop_isolation(false)]
pub fn find_types_specifier(t: &Vec<char>) -> (r: Option<(usize, usize)>)
    ensures
        r is Some <==> has_types_attr(t@),
        r matches Some(c) ==> {
            &&& c.0 <= c.1 <= t@.len()
            &&& t@.subrange(c.0 as int, c.1 as int) == reference_specifier(t@)
        },
{
    let mut i: usize = 0;
    while i < t.len()
        invariant
            0 <= i <= t@.len(),
            first_types_match_from(t@, 0) == first_types_match_from(t@, i as int),
        decreases t@.len() - i,
    {
        let attempt = try_types_at(t, i);
        if let Some(c) = attempt {
            assert(first_types_match_from(t@, i as int) == i);
            return Some(c);
        }
        i = i + 1;
    }
    assert(first_types_match_from(t@, 0) == t@.len());
    None
}

/// The comment text is a pragma directive: optional whitespace, the pragma
/// keyword (case-insensitive), optional whitespace, `=`, optional
/// whitespace, then a specifier token.  A quoted string and a bare token
/// both begin with a non-whitespace character, so the specifier test is
/// exactly that one follows.
pub open spec fn is_pragma_comment(t: Seq<char>) -> bool {
    let i = spec_next_non_space(t, 0);
    &&& matches_ci_at(t, i, pragma_pat())
    &&& {
        let e = spec_next_non_space(t, i + 11);
        &&& e < t.len()
        &&& t[e] == '='
        &&& spec_next_non_space(t, e + 1) < t.len()
    }
}

/// Executable test for [`is_pragma_comment`].
pub fn is_deno_types_pragma(text: &Vec<char>) -> (r: bool)
    ensures
        r == is_pragma_comment(text@),
{
    let n = text.len();
    let i = next_non_whitespace_pos(text, 0);
    proof {
        lemma_next_non_space(text@, 0);
    }
    let pat = vec!['@', 'd', 'e', 'n', 'o', '-', 't', 'y', 'p', 'e', 's'];
    assert(pat@ =~= pragma_pat());
    if !check_ci_at(text, i, &pat) {
        return false;
    }
    let e = next_non_whitespace_pos(text, i + 11);
    proof {
        lemma_next_non_space(text@, i + 11);
    }
    if e == n || text[e] != '=' {
        return false;
    }
    let q = next_non_whitespace_pos(text, e + 1);
    q < n
}

/// Whether a captured specifier names a relative path or a URL.
pub open spec fn is_relative_or_url(s: Seq<char>) -> bool {
    ||| matches_ci_at(s, 0, seq!['.', '/'])
    ||| matches_ci_at(s, 0, seq!['.', '.', '/'])
    ||| matches_ci_at(s, 0, seq!['h', 't', 't', 'p', ':', '/', '/'])
    ||| matches_ci_at(s, 0, seq!['h', 't', 't', 'p', 's', ':', '/', '/'])
}

/// Executable test for [`is_relative_or_url`] on the slice `[lo, hi)` of `t`
/// (the captured specifier sits inside the comment's text).
pub fn specifier_is_relative_or_url(t: &Vec<char>, lo: usize, hi: usize) -> (r: bool)
    requires
        lo <= hi <= t@.len(),
    ensures
        r == is_relative_or_url(t@.subrange(lo as int, hi as int)),
{
    let dot_slash = vec!['.', '/'];
    let dot_dot_slash = vec!['.', '.', '/'];
    let http = vec!['h', 't', 't', 'p', ':', '/', '/'];
    let https = vec!['h', 't', 't', 'p', 's', ':', '/', '/'];
    let r = check_ci_prefix(t, lo, hi, &dot_slash) || check_ci_prefix(t, lo, hi, &dot_dot_slash)
        || check_ci_prefix(t, lo, hi, &http) || check_ci_prefix(t, lo, hi, &https);
    proof {
        assert(dot_slash@ =~= seq!['.', '/']);
        assert(dot_dot_slash@ =~= seq!['.', '.', '/']);
        assert(http@ =~= seq!['h', 't', 't', 'p', ':', '/', '/']);
        assert(https@ =~= seq!['h', 't', 't', 'p', 's', ':', '/', '/']);
    }
    r
}

/// Case-insensitive prefix test of `pat` against the slice `[lo, hi)` of `t`.
#[verifier::loop_isolation(false)]
fn check_ci_prefix(t: &Vec<char>, lo: usize, hi: usize, pat: &Vec<char>) -> (r: bool)
    requires
        lo <= hi <= t@.len(),
    ensures
        r == matches_ci_at(t@.subrange(lo as int, hi as int), 0, pat@),
{
    let ghost s = t@.subrange(lo as int, hi as int);
    if hi - lo < pat.len() {
        return false;
    }
    let mut k: usize = 0;
    while k < pat.len()
        invariant
            k <= pat@.len(),
            forall|j: int| 0 <= j < k ==> char_ci_eq(s[j], #[trigger] pat@[j]),
        decreases pat@.len() - k,
    {
        if !eq_ci(t[lo + k], pat[k]) {
            assert(!char_ci_eq(s[k as int], pat@[k as int]));
            return false;
        }
        k = k + 1;
    }
    true
}

/// A reference directive that must be deleted: it carries a `types`
/// attribute whose specifier is relative or a URL.
pub open spec fn should_delete_reference(t: Seq<char>) -> bool {
    &&& is_reference_comment(t)
    &&& has_types_attr(t)
    &&& is_relative_or_url(reference_specifier(t))
}

/// Executable test for [`should_delete_reference`].
pub fn reference_should_be_deleted(text: &Vec<char>) -> (r: bool)
    ensures
        r == should_delete_reference(text@),
{
    if !is_triple_slash_reference(text) {
        return false;
    }
    match find_types_specifier(text) {
        Some((lo, hi)) => specifier_is_relative_or_url(text, lo, hi),
        None => false,
    }
}

/// The half-open range deleted for `c`: the comment's span, extended past
/// the whitespace that follows it.
pub open spec fn extended_range(text: Seq<char>, c: Comment) -> (int, int) {
    (c.lo as int, spec_next_non_space(text, c.hi as int))
}

/// The reference-pass deletion test, as a function value.
pub open spec fn ref_delete_pred() -> spec_fn(Comment) -> bool {
    |c: Comment| should_delete_reference(c.text@)
}

/// The pragma-pass deletion test, as a function value.
pub open spec fn pragma_pred() -> spec_fn(Comment) -> bool {
    |c: Comment| is_pragma_comment(c.text@)
}

/// The comment-to-deleted-range map, as a function value.
pub open spec fn range_of(text: Seq<char>) -> spec_fn(Comment) -> (int, int) {
    |c: Comment| extended_range(text, c)
}

/// The range a `TextChange` covers, as a function value.
pub open spec fn change_range() -> spec_fn(TextChange) -> (int, int) {
    |tc: TextChange| (tc.lo as int, tc.hi as int)
}

/// The ranges the leading-reference pass deletes, in comment order.
pub open spec fn reference_pass_changes(text: Seq<char>, leading: Seq<Comment>) -> Seq<(int, int)> {
    leading.filter(ref_delete_pred()).map_values(range_of(text))
}

/// The ranges the global-pragma pass deletes, in comment order.
pub open spec fn pragma_pass_changes(text: Seq<char>, all: Seq<Comment>) -> Seq<(int, int)> {
    all.filter(pragma_pred()).map_values(range_of(text))
}

/// Everything the stripper deletes: the reference pass, then the pragma pass.
pub open spec fn expected_changes(
    text: Seq<char>,
    leading: Seq<Comment>,
    all: Seq<Comment>,
) -> Seq<(int, int)> {
    reference_pass_changes(text, leading) + pragma_pass_changes(text, all)
}

/// A comment list whose spans all lie inside the source text.
pub open spec fn comments_in_text(comments: Seq<Comment>, text: Seq<char>) -> bool {
    forall|i: int|
        0 <= i < comments.len() ==> (#[trigger] comments[i]).lo <= comments[i].hi <= text.len()
}

/// Produces the deletions that remove every ecosystem-specific directive
/// comment: first every leading reference directive whose `types` specifier
/// is relative or a URL, then every pragma directive anywhere in the
/// program.  Each deletion covers the comment's span extended past trailing
/// whitespace, and carries empty replacement text.
#[verifier::loop_isolation(false)]
#[verifier::rlimit(50)]
pub fn get_deno_comment_directive_text_changes(
    text: &Vec<char>,
    leading_comments: &Vec<Comment>,
    all_comments: &Vec<Comment>,
) -> (r: Vec<TextChange>)
    requires
        comments_in_text(leading_comments@, text@),
        comments_in_text(all_comments@, text@),
    ensures
        r@.map_values(change_range()) == expected_changes(text@, leading_comments@, all_comments@),
        forall|k: int| 0 <= k < r@.len() ==> (#[trigger] r@[k]).new_text@ == Seq::<char>::empty(),
        forall|k: int|
            0 <= k < r@.len() ==> (#[trigger] r@[k]).lo <= r@[k].hi && r@[k].hi <= text@.len(),
{
    let ghost proj = change_range();
    let mut r: Vec<TextChange> = Vec::new();

    let mut i: usize = 0;
    while i < leading_comments.len()
        invariant
            0 <= i <= leading_comments@.len(),
            r@.map_values(proj) == reference_pass_changes(text@, leading_comments@.take(i as int)),
            forall|k: int| 0 <= k < r@.len() ==> (#[trigger] r@[k]).new_text@ == Seq::<char>::empty(),
            forall|k: int|
                0 <= k < r@.len() ==> (#[trigger] r@[k]).lo <= r@[k].hi && r@[k].hi <= text@.len(),
        decreases leading_comments@.len() - i,
    {
        let c = &leading_comments[i];
        let ghost pred = ref_delete_pred();
        proof {
            assert(leading_comments@.take(i + 1) =~= leading_comments@.take(i as int) + seq![
                leading_comments@[i as int],
            ]);
            Seq::filter_distributes_over_add(
                leading_comments@.take(i as int),
                seq![leading_comments@[i as int]],
                pred,
            );
            lemma_filter_singleton(leading_comments@[i as int], pred);
        }
        if reference_should_be_deleted(&c.text) {
            let end = next_non_whitespace_pos(text, c.hi);
            proof {
                lemma_next_non_space(text@, c.hi as int);
            }
            let ghost r0 = r@;
            let ghost ci = leading_comments@[i as int];
            let ghost g = range_of(text@);
            let ghost f0 = leading_comments@.take(i as int).filter(pred);
            r.push(TextChange { lo: c.lo, hi: end, new_text: Vec::new() });
            proof {
                assert(pred(ci));
                assert(f0 + seq![ci] =~= f0.push(ci));
                assert(leading_comments@.take(i + 1).filter(pred) == f0.push(ci));
                lemma_map_push(f0, g, ci);
                lemma_map_push(r0, proj, r@[r0.len() as int]);
                assert(r@ =~= r0.push(r@[r0.len() as int]));
                assert(proj(r@[r0.len() as int]) == g(ci));
                assert(r@.map_values(proj) == reference_pass_changes(
                    text@,
                    leading_comments@.take(i + 1),
                ));
            }
        } else {
            proof {
                assert(r@.map_values(proj) =~= reference_pass_changes(
                    text@,
                    leading_comments@.take(i + 1),
                ));
            }
        }
        i = i + 1;
    }
    proof {
        assert(leading_comments@.take(leading_comments@.len() as int) =~= leading_comments@);
    }

    let ghost ref_part = reference_pass_changes(text@, leading_comments@);
    let mut i: usize = 0;
    while i < all_comments.len()
        invariant
            0 <= i <= all_comments@.len(),
            r@.map_values(proj) == ref_part + pragma_pass_changes(
                text@,
                all_comments@.take(i as int),
            ),
            forall|k: int| 0 <= k < r@.len() ==> (#[trigger] r@[k]).new_text@ == Seq::<char>::empty(),
            forall|k: int|
                0 <= k < r@.len() ==> (#[trigger] r@[k]).lo <= r@[k].hi && r@[k].hi <= text@.len(),
        decreases all_comments@.len() - i,
    {
        let c = &all_comments[i];
        let ghost pred = pragma_pred();
        proof {
            assert(all_comments@.take(i + 1) =~= all_comments@.take(i as int) + seq![
                all_comments@[i as int],
            ]);
            Seq::filter_distributes_over_add(
                all_comments@.take(i as int),
                seq![all_comments@[i as int]],
                pred,
            );
            lemma_filter_singleton(all_comments@[i as int], pred);
        }
        if is_deno_types_pragma(&c.text) {
            let end = next_non_whitespace_pos(text, c.hi);
            proof {
                lemma_next_non_space(text@, c.hi as int);
            }
            let ghost r0 = r@;
            let ghost ci = all_comments@[i as int];
            let ghost g = range_of(text@);
            let ghost f0 = all_comments@.take(i as int).filter(pred);
            r.push(TextChange { lo: c.lo, hi: end, new_text: Vec::new() });
            proof {
                assert(pred(ci));
                assert(f0 + seq![ci] =~= f0.push(ci));
                assert(all_comments@.take(i + 1).filter(pred) == f0.push(ci));
                lemma_map_push(f0, g, ci);
                lemma_map_push(r0, proj, r@[r0.len() as int]);
                assert(r@ =~= r0.push(r@[r0.len() as int]));
                assert(proj(r@[r0.len() as int]) == g(ci));
                assert(r0.map_values(proj).push(g(ci)) =~= ref_part + pragma_pass_changes(
                    text@,
                    all_comments@.take(i + 1),
                ));
                assert(r@.map_values(proj) == ref_part + pragma_pass_changes(
                    text@,
                    all_comments@.take(i + 1),
                ));
            }
        } else {
            proof {
                assert(r@.map_values(proj) =~= ref_part + pragma_pass_changes(
                    text@,
                    all_comments@.take(i + 1),
                ));
            }
        }
        i = i + 1;
    }
    proof {
        assert(all_comments@.take(all_comments@.len() as int) =~= all_comments@);
    }
    r
}

/// The text after one deletion: everything before `lo`, then everything from
/// `hi` on.
pub open spec fn apply_deletion(text: Seq<char>, lo: int, hi: int) -> Seq<char>
    recommends
        0 <= lo <= hi <= text.len(),
{
    text.subrange(0, lo) + text.subrange(hi, text.len() as int)
}

/// Law: a deletion of a comment's extended range never leaves whitespace
/// where the comment stood — after the deletion, the character now at the
/// deletion point (if any is left) is non-whitespace, so a comment that sat
/// alone on its line, followed by a line break and code, leaves no
/// whitespace-only line behind.
pub proof fn lemma_no_blank_residue(text: Seq<char>, c: Comment)
    requires
        c.lo <= c.hi <= text.len(),
    ensures
        ({
            let lo = extended_range(text, c).0;
            let hi = extended_range(text, c).1;
            let out = apply_deletion(text, lo, hi);
            lo < out.len() ==> !is_space_char(out[lo])
        }),
{
    lemma_next_non_space(text, c.hi as int);
    let hi = spec_next_non_space(text, c.hi as int);
    let out = apply_deletion(text, c.lo as int, hi);
    if (c.lo as int) < out.len() {
        assert(out[c.lo as int] == text[hi]);
    }
}

/// Law: a deletion never reaches into a later comment.  When comment `a`'s
/// span ends at or before comment `b`'s span begins, and `b` starts with a
/// visible character (comment introducers are never whitespace), then `a`'s
/// extended range ends at or before `b`'s begins — so the emitted ranges,
/// coming from comments with disjoint spans, are themselves disjoint.
pub proof fn lemma_extended_ranges_disjoint(text: Seq<char>, a: Comment, b: Comment)
    requires
        a.lo <= a.hi <= text.len(),
        b.lo <= b.hi <= text.len(),
        a.hi <= b.lo,
        !is_space_char(text[b.lo as int]),
    ensures
        extended_range(text, a).1 <= extended_range(text, b).0,
{
    lemma_next_non_space(text, a.hi as int);
    if extended_range(text, a).1 > b.lo {
        assert(is_space_char(text[b.lo as int]));
    }
}

/// Law: the two directive grammars are mutually exclusive — no comment text
/// is both a reference directive and a pragma directive.  The pragma pass
/// rescans every comment, the reference pass included, so this is what rules
/// out a double deletion of one comment.
pub proof fn lemma_directive_grammars_exclusive(t: Seq<char>)
    ensures
        !(is_reference_comment(t) && is_pragma_comment(t)),
{
    if is_reference_comment(t) && is_pragma_comment(t) {
        assert(!is_space_char(t[0]));
        assert(spec_next_non_space(t, 0) == 0);
        assert(char_ci_eq(t[0], pragma_pat()[0]));
        assert(false);
    }
}

/// Law: every pragma comment is deleted — its extended range is among the
/// emitted deletions.
pub proof fn lemma_pragma_comment_deleted(
    text: Seq<char>,
    leading: Seq<Comment>,
    all: Seq<Comment>,
    i: int,
)
    requires
        0 <= i < all.len(),
        is_pragma_comment(all[i].text@),
    ensures
        expected_changes(text, leading, all).contains(extended_range(text, all[i])),
{
    assert(pragma_pred()(all[i]));
    all.lemma_filter_contains(pragma_pred(), i);
    let fs = all.filter(pragma_pred());
    let j = choose|j: int| 0 <= j < fs.len() && fs[j] == all[i];
    let ref_len = reference_pass_changes(text, leading).len() as int;
    assert(expected_changes(text, leading, all)[ref_len + j] == extended_range(text, all[i]));
}

/// Law: every leading reference comment with a relative or URL specifier is
/// deleted — its extended range is among the emitted deletions.
pub proof fn lemma_reference_comment_deleted(
    text: Seq<char>,
    leading: Seq<Comment>,
    all: Seq<Comment>,
    i: int,
)
    requires
        0 <= i < leading.len(),
        should_delete_reference(leading[i].text@),
    ensures
        expected_changes(text, leading, all).contains(extended_range(text, leading[i])),
{
    assert(ref_delete_pred()(leading[i]));
    leading.lemma_filter_contains(ref_delete_pred(), i);
    let fs = leading.filter(ref_delete_pred());
    let j = choose|j: int| 0 <= j < fs.len() && fs[j] == leading[i];
    assert(expected_changes(text, leading, all)[j] == extended_range(text, leading[i]));
}

/// Position `p` of the source text falls inside one of the ranges.
pub open spec fn covered_by(ranges: Seq<(int, int)>, p: int) -> bool {
    exists|k: int| 0 <= k < ranges.len() && (#[trigger] ranges[k]).0 <= p < ranges[k].1
}

/// Law: applying the deletions leaves no occurrence of the pragma keyword
/// that sat inside a pragma comment — every position of such an occurrence
/// is covered by an emitted range.  (An occurrence outside every comment,
/// in a string literal say, is out of the stripper's reach and survives.)
pub proof fn lemma_pragma_keyword_removed(
    text: Seq<char>,
    leading: Seq<Comment>,
    all: Seq<Comment>,
    p: int,
    j: int,
)
    requires
        0 <= j < all.len(),
        all[j].lo <= all[j].hi <= text.len(),
        is_pragma_comment(all[j].text@),
        all[j].lo <= p < all[j].hi,
    ensures
        covered_by(expected_changes(text, leading, all), p),
{
    lemma_pragma_comment_deleted(text, leading, all, j);
    lemma_next_non_space(text, all[j].hi as int);
    let ranges = expected_changes(text, leading, all);
    let k = choose|k: int| 0 <= k < ranges.len() && ranges[k] == extended_range(text, all[j]);
    assert(ranges[k].0 <= p < ranges[k].1);
}

/// Law: a comment that matches neither grammar is left byte-for-byte
/// unchanged — no emitted deletion covers any position of its span.  The
/// premises say what the parser guarantees: comment spans are pairwise
/// disjoint (a list may hold the same comment twice, as a leading comment is
/// also among all comments), and a comment begins with a visible character.
pub proof fn lemma_unmatched_comment_untouched(
    text: Seq<char>,
    leading: Seq<Comment>,
    all: Seq<Comment>,
    b: Comment,
    p: int,
)
    requires
        comments_in_text(leading, text),
        comments_in_text(all, text),
        b.lo <= b.hi <= text.len(),
        !should_delete_reference(b.text@),
        !is_pragma_comment(b.text@),
        b.lo <= p < b.hi,
        !is_space_char(text[b.lo as int]),
        forall|i: int|
            0 <= i < leading.len() ==> (#[trigger] leading[i]) == b || leading[i].hi <= b.lo
                || b.hi <= leading[i].lo,
        forall|i: int|
            0 <= i < all.len() ==> (#[trigger] all[i]) == b || all[i].hi <= b.lo || b.hi
                <= all[i].lo,
    ensures
        !covered_by(expected_changes(text, leading, all), p),
{
    let ranges = expected_changes(text, leading, all);
    let apart = reference_pass_changes(text, leading);
    assert forall|k: int| 0 <= k < ranges.len() implies !((#[trigger] ranges[k]).0 <= p
        && p < ranges[k].1) by {
        if k < apart.len() {
            let fs = leading.filter(ref_delete_pred());
            assert(ranges[k] == range_of(text)(fs[k]));
            lemma_filter_element_of(leading, ref_delete_pred(), k);
            let j = choose|j: int| 0 <= j < leading.len() && leading[j] == fs[k];
            leading.lemma_filter_pred(ref_delete_pred(), k);
            let c = leading[j];
            assert(should_delete_reference(c.text@));
            assert(c != b);
            if c.hi <= b.lo {
                lemma_extended_ranges_disjoint(text, c, b);
            }
        } else {
            let fs = all.filter(pragma_pred());
            let k2 = k - apart.len();
            assert(ranges[k] == range_of(text)(fs[k2]));
            lemma_filter_element_of(all, pragma_pred(), k2);
            let j = choose|j: int| 0 <= j < all.len() && all[j] == fs[k2];
            all.lemma_filter_pred(pragma_pred(), k2);
            let c = all[j];
            assert(is_pragma_comment(c.text@));
            assert(c != b);
            if c.hi <= b.lo {
                lemma_extended_ranges_disjoint(text, c, b);
            }
        }
    }
}

/// Law: the stripper is idempotent.  If a program is re-parsed after the
/// deletions were applied, every comment of the second parse carries the
/// text of a comment the first run left in place (its span may have moved);
/// the second run then emits no deletion at all.
pub proof fn lemma_stripper_idempotent(
    text2: Seq<char>,
    leading: Seq<Comment>,
    all: Seq<Comment>,
    leading2: Seq<Comment>,
    all2: Seq<Comment>,
)
    requires
        forall|i: int|
            0 <= i < leading2.len() ==> exists|j: int|
                0 <= j < leading.len() && !should_delete_reference(leading[j].text@) && (
                #[trigger] leading2[i]).text@ == leading[j].text@,
        forall|i: int|
            0 <= i < all2.len() ==> exists|j: int|
                0 <= j < all.len() && !is_pragma_comment(all[j].text@) && (#[trigger] all2[i]).text@
                    == all[j].text@,
    ensures
        expected_changes(text2, leading2, all2) == Seq::<(int, int)>::empty(),
{
    assert forall|i: int| 0 <= i < leading2.len() implies !ref_delete_pred()(leading2[i]) by {
        let j = choose|j: int|
            0 <= j < leading.len() && !should_delete_reference(leading[j].text@) && leading2[i].text@
                == leading[j].text@;
        assert(!should_delete_reference(leading2[i].text@));
    }
    assert forall|i: int| 0 <= i < all2.len() implies !pragma_pred()(all2[i]) by {
        let j = choose|j: int|
            0 <= j < all.len() && !is_pragma_comment(all[j].text@) && all2[i].text@
                == all[j].text@;
        assert(!is_pragma_comment(all2[i].text@));
    }
    lemma_filter_all_false(leading2, ref_delete_pred());
    lemma_filter_all_false(all2, pragma_pred());
    assert(expected_changes(text2, leading2, all2) =~= Seq::<(int, int)>::empty());
}

} // verus!
