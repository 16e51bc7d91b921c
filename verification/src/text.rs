//! Locating substrings in model output: `<think>...</think>` spans, which
//! are discarded reasoning, and the first flat `{...}` span, which is the
//! judge's wire object.

use vstd::prelude::*;

verus! {

// ---------------------------------------------------------------------
// Pattern search
// ---------------------------------------------------------------------
/// Whether `pat` occurs in `s` starting at position `i`.
pub open spec fn is_match_at(s: Seq<char>, pat: Seq<char>, i: int) -> bool {
    0 <= i && i + pat.len() <= s.len() && s.subrange(i, i + pat.len()) == pat
}

/// The first position at or after `from` where the non-empty pattern `pat`
/// occurs.
pub open spec fn spec_find(s: Seq<char>, pat: Seq<char>, from: int) -> Option<int>
    decreases s.len() - from,
{
    if pat.len() == 0 || from < 0 || from + pat.len() > s.len() {
        None
    } else if is_match_at(s, pat, from) {
        Some(from)
    } else {
        spec_find(s, pat, from + 1)
    }
}

/// `spec_find` yields exactly the first occurrence.
pub proof fn lemma_find_first(s: Seq<char>, pat: Seq<char>, from: int)
    requires
        0 <= from,
        pat.len() >= 1,
    ensures
        spec_find(s, pat, from) is None ==> forall|k: int|
            from <= k ==> !is_match_at(s, pat, k),
        spec_find(s, pat, from) matches Some(i) ==> from <= i && is_match_at(s, pat, i) && (
        forall|k: int| from <= k < i ==> !is_match_at(s, pat, k)),
    decreases s.len() - from,
{
    if from + pat.len() > s.len() {
        assert forall|k: int| from <= k implies !is_match_at(s, pat, k) by {}
    } else if is_match_at(s, pat, from) {
    } else {
        lemma_find_first(s, pat, from + 1);
    }
}

/// Where the first occurrence is known by hand, `spec_find` returns it.
pub proof fn lemma_find_exact(s: Seq<char>, pat: Seq<char>, from: int, k: int)
    requires
        pat.len() >= 1,
        0 <= from <= k,
        is_match_at(s, pat, k),
        forall|m: int| from <= m < k ==> !is_match_at(s, pat, m),
    ensures
        spec_find(s, pat, from) == Some(k),
{
    lemma_find_first(s, pat, from);
    match spec_find(s, pat, from) {
        None => {
            assert(!is_match_at(s, pat, k));
        },
        Some(i) => {
            if i < k {
                assert(!is_match_at(s, pat, i));
            }
            if i > k {
                assert(!is_match_at(s, pat, k));
            }
        },
    }
}

fn matches_at(cv: &Vec<char>, pat: &Vec<char>, i: usize) -> (r: bool)
    requires
        i <= cv.len(),
    ensures
        r == is_match_at(cv@, pat@, i as int),
{
    if cv.len() - i < pat.len() {
        return false;
    }
    let mut k: usize = 0;
    while k < pat.len()
        invariant
            i + pat.len() <= cv.len(),
            k <= pat.len(),
            forall|m: int| 0 <= m < k ==> cv@[i + m] == pat@[m],
        decreases pat.len() - k,
    {
        if cv[i + k] != pat[k] {
            assert(cv@.subrange(i as int, i + pat@.len())[k as int] != pat@[k as int]);
            return false;
        }
        k = k + 1;
    }
    assert(cv@.subrange(i as int, i + pat@.len()) =~= pat@);
    true
}

/// The first occurrence of `pat` at or after `from`, as `spec_find` gives it.
pub fn find_pattern(cv: &Vec<char>, pat: &Vec<char>, from: usize) -> (r: Option<usize>)
    requires
        from <= cv.len(),
        pat@.len() >= 1,
    ensures
        r is None <==> spec_find(cv@, pat@, from as int) is None,
        r matches Some(i) ==> spec_find(cv@, pat@, from as int) == Some(i as int) && from <= i
            && i + pat@.len() <= cv@.len(),
{
    let mut p = from;
    loop
        invariant
            pat@.len() >= 1,
            from <= p <= cv.len(),
            spec_find(cv@, pat@, from as int) == spec_find(cv@, pat@, p as int),
        decreases cv.len() - p,
    {
        if cv.len() - p < pat.len() {
            return None;
        }
        if matches_at(cv, pat, p) {
            return Some(p);
        }
        p = p + 1;
    }
}

// ---------------------------------------------------------------------
// Stripping think spans
// ---------------------------------------------------------------------
/// `s` with every `<think>...</think>` span removed: repeatedly, the first
/// opening tag with a closing tag after it is cut out together with
/// everything between, and the search resumes after the cut.
pub open spec fn spec_strip_think(s: Seq<char>) -> Seq<char>
    decreases s.len(),
{
    match spec_find(s, "<think>"@, 0) {
        None => s,
        Some(i) => match spec_find(s, "</think>"@, i + "<think>"@.len()) {
            None => s,
            Some(j) => {
                proof {
                    reveal_strlit("<think>");
                    reveal_strlit("</think>");
                    lemma_find_first(s, "<think>"@, 0);
                    lemma_find_first(s, "</think>"@, i + "<think>"@.len());
                }
                s.subrange(0, i) + spec_strip_think(s.skip(j + "</think>"@.len()))
            },
        },
    }
}

pub(crate) fn copy_range(cv: &Vec<char>, a: usize, b: usize) -> (r: Vec<char>)
    requires
        a <= b <= cv.len(),
    ensures
        r@ == cv@.subrange(a as int, b as int),
{
    let mut r: Vec<char> = Vec::new();
    let mut i = a;
    while i < b
        invariant
            a <= i <= b <= cv.len(),
            r@ == cv@.subrange(a as int, i as int),
        decreases b - i,
    {
        r.push(cv[i]);
        assert(r@ =~= cv@.subrange(a as int, i + 1 as int));
        i = i + 1;
    }
    r
}

/// Removes every `<think>...</think>` span, as `spec_strip_think` describes.
pub fn strip_think(cv: &Vec<char>) -> (r: Vec<char>)
    ensures
        r@ == spec_strip_think(cv@),
    decreases cv.len(),
{
    let topen = crate::strutil::chars_of("<think>");
    let tclose = crate::strutil::chars_of("</think>");
    proof {
        reveal_strlit("<think>");
        reveal_strlit("</think>");
    }
    match find_pattern(cv, &topen, 0) {
        None => copy_range(cv, 0, cv.len()),
        Some(i) => {
            match find_pattern(cv, &tclose, i + 7) {
                None => copy_range(cv, 0, cv.len()),
                Some(j) => {
                    let mut r = copy_range(cv, 0, i);
                    let tail = copy_range(cv, j + 8, cv.len());
                    assert(tail@ =~= cv@.skip(j + 8));
                    let rest = strip_think(&tail);
                    let mut k: usize = 0;
                    while k < rest.len()
                        invariant
                            k <= rest.len(),
                            r@ == cv@.subrange(0, i as int) + rest@.subrange(0, k as int),
                        decreases rest.len() - k,
                    {
                        r.push(rest[k]);
                        assert(r@ =~= cv@.subrange(0, i as int) + rest@.subrange(
                            0,
                            k + 1 as int,
                        ));
                        k = k + 1;
                    }
                    assert(rest@.subrange(0, rest@.len() as int) =~= rest@);
                    r
                },
            }
        },
    }
}

// ---------------------------------------------------------------------
// Finding the first flat object span
// ---------------------------------------------------------------------
/// The first position at or after `pos` holding a brace character.
pub open spec fn spec_next_brace(s: Seq<char>, pos: int) -> Option<int>
    decreases s.len() - pos,
{
    if pos < 0 || pos >= s.len() {
        None
    } else if s[pos] == '{' || s[pos] == '}' {
        Some(pos)
    } else {
        spec_next_brace(s, pos + 1)
    }
}

pub proof fn lemma_next_brace_first(s: Seq<char>, pos: int)
    requires
        0 <= pos,
    ensures
        spec_next_brace(s, pos) is None ==> forall|k: int|
            pos <= k < s.len() ==> s[k] != '{' && s[k] != '}',
        spec_next_brace(s, pos) matches Some(m) ==> pos <= m < s.len() && (s[m] == '{' || s[m]
            == '}') && (forall|k: int| pos <= k < m ==> s[k] != '{' && s[k] != '}'),
    decreases s.len() - pos,
{
    if 0 <= pos < s.len() && !(s[pos] == '{' || s[pos] == '}') {
        lemma_next_brace_first(s, pos + 1);
    }
}

/// The first flat `{...}` span at or after `pos`: a `{` whose next brace is
/// a `}`.  Yields the positions of the two braces.
pub open spec fn spec_find_object(s: Seq<char>, pos: int) -> Option<(int, int)>
    decreases s.len() - pos,
{
    if pos < 0 || pos >= s.len() {
        None
    } else if s[pos] == '{' {
        match spec_next_brace(s, pos + 1) {
            None => None,
            Some(m) => if s[m] == '}' {
                Some((pos, m))
            } else {
                proof {
                    lemma_next_brace_first(s, pos + 1);
                }
                spec_find_object(s, m)
            },
        }
    } else {
        spec_find_object(s, pos + 1)
    }
}

pub proof fn lemma_find_object_bounds(s: Seq<char>, pos: int)
    requires
        0 <= pos,
    ensures
        spec_find_object(s, pos) matches Some(p) ==> pos <= p.0 < p.1 < s.len() && s[p.0] == '{'
            && s[p.1] == '}',
    decreases s.len() - pos,
{
    if 0 <= pos < s.len() {
        if s[pos] == '{' {
            if let Some(m) = spec_next_brace(s, pos + 1) {
                lemma_next_brace_first(s, pos + 1);
                if s[m] != '}' {
                    lemma_find_object_bounds(s, m);
                }
            }
        } else {
            lemma_find_object_bounds(s, pos + 1);
        }
    }
}

fn next_brace(cv: &Vec<char>, pos: usize) -> (r: Option<usize>)
    requires
        pos <= cv.len(),
    ensures
        r is None <==> spec_next_brace(cv@, pos as int) is None,
        r matches Some(m) ==> spec_next_brace(cv@, pos as int) == Some(m as int) && pos <= m
            < cv.len(),
{
    let mut p = pos;
    loop
        invariant
            pos <= p <= cv.len(),
            spec_next_brace(cv@, pos as int) == spec_next_brace(cv@, p as int),
        decreases cv.len() - p,
    {
        if p >= cv.len() {
            return None;
        }
        if cv[p] == '{' || cv[p] == '}' {
            return Some(p);
        }
        p = p + 1;
    }
}

/// The first flat `{...}` span of `cv`, as `spec_find_object` gives it.
pub fn find_object(cv: &Vec<char>, pos: usize) -> (r: Option<(usize, usize)>)
    requires
        pos <= cv.len(),
    ensures
        r is None <==> spec_find_object(cv@, pos as int) is None,
        r matches Some((i, j)) ==> spec_find_object(cv@, pos as int) == Some((i as int, j as int))
            && pos <= i < j < cv.len(),
    decreases cv.len() - pos,
{
    if pos >= cv.len() {
        return None;
    }
    if cv[pos] == '{' {
        match next_brace(cv, pos + 1) {
            None => None,
            Some(m) => {
                if cv[m] == '}' {
                    Some((pos, m))
                } else {
                    find_object(cv, m)
                }
            },
        }
    } else {
        find_object(cv, pos + 1)
    }
}

} // verus!
