//! Proved properties of the decision parser as a whole: what it returns on
//! raw text that carries no object at all, and that think spans and
//! surrounding prose never affect the extracted decision.

use vstd::prelude::*;

use crate::decision::{spec_parse_decision, ParseError};
use crate::json;
use crate::node::NodeType;
use crate::tree::{options_ok, spec_longest_from, spec_longest_opts, GameTree};
use crate::text::{
    is_match_at, lemma_find_exact, lemma_find_first, lemma_find_object_bounds, spec_find,
    spec_find_object,
    spec_next_brace, spec_strip_think,
};

verus! {

/// No `{...}` span: no `{` stands anywhere before a `}`.
pub open spec fn no_flat_span(s: Seq<char>) -> bool {
    forall|i: int, j: int| 0 <= i < j < s.len() ==> !(s[i] == '{' && s[j] == '}')
}

/// Removing a middle segment of a string keeps it free of `{...}` spans.
proof fn lemma_no_flat_span_remove(s: Seq<char>, a: int, b: int)
    requires
        0 <= a <= b <= s.len(),
        no_flat_span(s),
    ensures
        no_flat_span(s.subrange(0, a) + s.skip(b)),
{
    let t = s.subrange(0, a) + s.skip(b);
    assert forall|i: int, j: int|
        0 <= i < j < t.len() implies !(t[i] == '{' && t[j] == '}') by {
        let oi: int = if i < a {
            i
        } else {
            b + (i - a)
        };
        let oj: int = if j < a {
            j
        } else {
            b + (j - a)
        };
        assert(t[i] == s[oi]);
        assert(t[j] == s[oj]);
        assert(0 <= oi < oj < s.len());
    }
}

/// The character at `k` of the think-stripped text occurs in the original.
proof fn lemma_strip_chars_at(s: Seq<char>, k: int)
    requires
        0 <= k < spec_strip_think(s).len(),
    ensures
        exists|m: int| 0 <= m < s.len() && s[m] == spec_strip_think(s)[k],
    decreases s.len(),
{
    reveal_strlit("<think>");
    reveal_strlit("</think>");
    match spec_find(s, "<think>"@, 0) {
        None => {
            assert(s[k] == spec_strip_think(s)[k]);
        },
        Some(i) => match spec_find(s, "</think>"@, i + "<think>"@.len()) {
            None => {
                assert(s[k] == spec_strip_think(s)[k]);
            },
            Some(j) => {
                lemma_find_first(s, "<think>"@, 0);
                lemma_find_first(s, "</think>"@, i + "<think>"@.len());
                let tail = s.skip(j + "</think>"@.len());
                let st = spec_strip_think(tail);
                let t = spec_strip_think(s);
                assert(t == s.subrange(0, i) + st);
                if k < i {
                    assert(s[k] == t[k]);
                } else {
                    lemma_strip_chars_at(tail, k - i);
                    let m2 = choose|m2: int| 0 <= m2 < tail.len() && tail[m2] == st[k - i];
                    assert(0 <= j + 8 + m2 < s.len());
                    assert(s[j + 8 + m2] == t[k]);
                }
            },
        },
    }
}

/// Stripping think spans keeps a string free of `{...}` spans.
proof fn lemma_strip_preserves_no_flat(s: Seq<char>)
    requires
        no_flat_span(s),
    ensures
        no_flat_span(spec_strip_think(s)),
    decreases s.len(),
{
    reveal_strlit("<think>");
    reveal_strlit("</think>");
    match spec_find(s, "<think>"@, 0) {
        None => {},
        Some(i) => match spec_find(s, "</think>"@, i + "<think>"@.len()) {
            None => {},
            Some(j) => {
                lemma_find_first(s, "<think>"@, 0);
                lemma_find_first(s, "</think>"@, i + "<think>"@.len());
                let tail = s.skip(j + "</think>"@.len());
                assert(tail =~= s.subrange(0, 0) + s.skip(j + 8));
                lemma_no_flat_span_remove(s, 0, j + 8);
                assert(no_flat_span(tail));
                lemma_strip_preserves_no_flat(tail);
                let st = spec_strip_think(tail);
                let t = spec_strip_think(s);
                assert(t == s.subrange(0, i) + st);
                assert forall|p: int, q: int|
                    0 <= p < q < t.len() implies !(t[p] == '{' && t[q] == '}') by {
                    if q < i {
                        assert(t[p] == s[p] && t[q] == s[q]);
                    } else if p >= i {
                        assert(t[p] == st[p - i] && t[q] == st[q - i]);
                    } else {
                        // `{` in the kept prefix, `}` somewhere in the
                        // stripped tail: that character exists in the tail,
                        // which sits after the prefix in the original.
                        assert(t[p] == s[p]);
                        if t[q] == '}' {
                            lemma_strip_chars_at(tail, q - i);
                            let m = choose|m: int| 0 <= m < tail.len() && tail[m] == st[q - i];
                            assert(s[j + 8 + m] == st[q - i]);
                            assert(!(s[p] == '{' && s[j + 8 + m] == '}'));
                        }
                    }
                }
            },
        },
    }
}

/// For all raw strings with no `{...}` span, parsing fails with
/// `NoJsonFound`: think spans may hide braces, but they cannot create a
/// span that was not there.
pub proof fn lemma_no_object_means_no_json_found(raw: Seq<char>)
    requires
        no_flat_span(raw),
    ensures
        spec_parse_decision(raw) == Err::<(Seq<char>, Seq<char>), ParseError>(
            ParseError::NoJsonFound,
        ),
{
    lemma_strip_preserves_no_flat(raw);
    let t = spec_strip_think(raw);
    lemma_find_object_bounds(t, 0);
    match spec_find_object(t, 0) {
        Some(p) => {
            assert(!(t[p.0] == '{' && t[p.1] == '}'));
            assert(false);
        },
        None => {},
    }
}

// ---------------------------------------------------------------------
// Think spans and prose never affect the extracted decision
// ---------------------------------------------------------------------
/// Free of `<`, so it can neither open nor close a think span.
pub open spec fn no_angle(s: Seq<char>) -> bool {
    forall|k: int| 0 <= k < s.len() ==> s[k] != '<'
}

/// Plain prose: free of braces and of `<`.
pub open spec fn plain_prose(s: Seq<char>) -> bool {
    forall|k: int| 0 <= k < s.len() ==> s[k] != '{' && s[k] != '}' && s[k] != '<'
}

/// A flat object span: braces exactly at the two ends, nothing inside that
/// could open a brace pair or a think tag.
pub open spec fn flat_span(s: Seq<char>) -> bool {
    &&& s.len() >= 2
    &&& s[0] == '{'
    &&& s[s.len() - 1] == '}'
    &&& forall|k: int| 0 < k < s.len() - 1 ==> s[k] != '{' && s[k] != '}' && s[k] != '<'
}

/// Zero or more think spans, each preceded by its own prose:
/// `prose_0 <think> body_0 </think> prose_1 <think> body_1 </think> ...`.
pub open spec fn think_spans_text(spans: Seq<(Seq<char>, Seq<char>)>) -> Seq<char>
    decreases spans.len(),
{
    if spans.len() == 0 {
        Seq::empty()
    } else {
        spans[0].0 + "<think>"@ + spans[0].1 + "</think>"@ + think_spans_text(spans.drop_first())
    }
}

/// The prose parts alone, in order: what stripping leaves of the spans.
pub open spec fn spans_prose(spans: Seq<(Seq<char>, Seq<char>)>) -> Seq<char>
    decreases spans.len(),
{
    if spans.len() == 0 {
        Seq::empty()
    } else {
        spans[0].0 + spans_prose(spans.drop_first())
    }
}

/// Every prose part is plain and every think body is free of `<`.
pub open spec fn spans_plain(spans: Seq<(Seq<char>, Seq<char>)>) -> bool {
    forall|n: int|
        0 <= n < spans.len() ==> plain_prose((#[trigger] spans[n]).0) && no_angle(spans[n].1)
}

/// A string without `<` has no think span, so stripping leaves it alone.
proof fn lemma_no_angle_strip_identity(s: Seq<char>)
    requires
        no_angle(s),
    ensures
        spec_strip_think(s) == s,
{
    reveal_strlit("<think>");
    lemma_find_first(s, "<think>"@, 0);
    match spec_find(s, "<think>"@, 0) {
        Some(i) => {
            assert(is_match_at(s, "<think>"@, i));
            assert(s.subrange(i, i + 7)[0] == s[i]);
            assert(false);
        },
        None => {},
    }
}

/// Stripping one leading think span leaves its prose and strips the rest.
proof fn lemma_strip_single(pre: Seq<char>, body: Seq<char>, rest: Seq<char>)
    requires
        no_angle(pre),
        no_angle(body),
    ensures
        spec_strip_think(pre + "<think>"@ + body + "</think>"@ + rest) == pre + spec_strip_think(
            rest,
        ),
{
    reveal_strlit("<think>");
    reveal_strlit("</think>");
    let s = pre + "<think>"@ + body + "</think>"@ + rest;
    let i = pre.len() as int;
    let j = i + 7 + body.len();
    assert(is_match_at(s, "<think>"@, i)) by {
        assert forall|m: int| 0 <= m < 7 implies s.subrange(i, i + 7)[m] == "<think>"@[m] by {
            assert(s[i + m] == "<think>"@[m]);
        }
        assert(s.subrange(i, i + 7) =~= "<think>"@);
    }
    assert forall|k: int| 0 <= k < i implies !is_match_at(s, "<think>"@, k) by {
        if is_match_at(s, "<think>"@, k) {
            assert(s.subrange(k, k + 7)[0] == s[k]);
            assert(s[k] == pre[k]);
        }
    }
    lemma_find_exact(s, "<think>"@, 0, i);
    assert(is_match_at(s, "</think>"@, j)) by {
        assert forall|m: int| 0 <= m < 8 implies s.subrange(j, j + 8)[m] == "</think>"@[m] by {
            assert(s[j + m] == "</think>"@[m]);
        }
        assert(s.subrange(j, j + 8) =~= "</think>"@);
    }
    assert forall|k: int| i + 7 <= k < j implies !is_match_at(s, "</think>"@, k) by {
        if is_match_at(s, "</think>"@, k) {
            assert(s.subrange(k, k + 8)[0] == s[k]);
            assert(s[k] == body[k - (i + 7)]);
        }
    }
    lemma_find_exact(s, "</think>"@, i + 7, j);
    assert(spec_strip_think(s) == s.subrange(0, i) + spec_strip_think(s.skip(j + 8)));
    assert(s.subrange(0, i) =~= pre);
    assert(s.skip(j + 8) =~= rest);
}

/// Stripping a text made of think spans followed by anything leaves the
/// prose parts and strips the remainder.
proof fn lemma_strip_spans(spans: Seq<(Seq<char>, Seq<char>)>, rest: Seq<char>)
    requires
        spans_plain(spans),
    ensures
        spec_strip_think(think_spans_text(spans) + rest) == spans_prose(spans)
            + spec_strip_think(rest),
    decreases spans.len(),
{
    if spans.len() == 0 {
        assert(think_spans_text(spans) + rest =~= rest);
        assert(spans_prose(spans) + spec_strip_think(rest) =~= spec_strip_think(rest));
    } else {
        let tailspans = spans.drop_first();
        let pre = spans[0].0;
        let body = spans[0].1;
        let rest2 = think_spans_text(tailspans) + rest;
        assert(think_spans_text(spans) + rest =~= pre + "<think>"@ + body + "</think>"@ + rest2);
        lemma_strip_single(pre, body, rest2);
        assert(spans_plain(tailspans)) by {
            assert forall|n: int|
                0 <= n < tailspans.len() implies plain_prose((#[trigger] tailspans[n]).0)
                && no_angle(tailspans[n].1) by {
                assert(tailspans[n] == spans[n + 1]);
            }
        }
        lemma_strip_spans(tailspans, rest);
        assert(spans_prose(spans) + spec_strip_think(rest) =~= pre + (spans_prose(tailspans)
            + spec_strip_think(rest)));
    }
}

/// The prose parts of plain spans are themselves plain.
proof fn lemma_spans_prose_plain(spans: Seq<(Seq<char>, Seq<char>)>)
    requires
        spans_plain(spans),
    ensures
        plain_prose(spans_prose(spans)),
    decreases spans.len(),
{
    if spans.len() > 0 {
        let tailspans = spans.drop_first();
        assert(spans_plain(tailspans)) by {
            assert forall|n: int|
                0 <= n < tailspans.len() implies plain_prose((#[trigger] tailspans[n]).0)
                && no_angle(tailspans[n].1) by {
                assert(tailspans[n] == spans[n + 1]);
            }
        }
        lemma_spans_prose_plain(tailspans);
        let p = spans_prose(spans);
        assert forall|k: int|
            0 <= k < p.len() implies p[k] != '{' && p[k] != '}' && p[k] != '<' by {
            if k < spans[0].0.len() {
                assert(p[k] == spans[0].0[k]);
            } else {
                assert(p[k] == spans_prose(tailspans)[k - spans[0].0.len()]);
            }
        }
    }
}

/// Where the first brace pair is known by hand, `spec_next_brace` and
/// `spec_find_object` return it.
proof fn lemma_next_brace_exact(s: Seq<char>, pos: int, j: int)
    requires
        0 <= pos <= j < s.len(),
        s[j] == '{' || s[j] == '}',
        forall|k: int| pos <= k < j ==> s[k] != '{' && s[k] != '}',
    ensures
        spec_next_brace(s, pos) == Some(j),
{
    crate::text::lemma_next_brace_first(s, pos);
    match spec_next_brace(s, pos) {
        None => {
            assert(false);
        },
        Some(m) => {
            if m < j {
                assert(s[m] != '{' && s[m] != '}');
            }
            if m > j {
                assert(s[j] != '{' && s[j] != '}');
            }
        },
    }
}

proof fn lemma_find_object_from(s: Seq<char>, pos: int, i: int, j: int)
    requires
        0 <= pos <= i < j < s.len(),
        s[i] == '{',
        s[j] == '}',
        forall|k: int| pos <= k < i ==> s[k] != '{',
        forall|k: int| i < k < j ==> s[k] != '{' && s[k] != '}',
    ensures
        spec_find_object(s, pos) == Some((i, j)),
    decreases s.len() - pos,
{
    if pos < i {
        assert(s[pos] != '{');
        lemma_find_object_from(s, pos + 1, i, j);
    } else {
        lemma_next_brace_exact(s, i + 1, j);
    }
}

/// The shared shape of every judged completion: think spans, prose, one
/// flat object span, trailing prose.  Stripping leaves the prose, and the
/// parser locates exactly the object span.
proof fn lemma_pipeline_locates_object(
    spans: Seq<(Seq<char>, Seq<char>)>,
    mid: Seq<char>,
    obj: Seq<char>,
    post: Seq<char>,
)
    requires
        spans_plain(spans),
        plain_prose(mid),
        plain_prose(post),
        flat_span(obj),
    ensures
        ({
            let t = spec_strip_think(think_spans_text(spans) + mid + obj + post);
            let q = spans_prose(spans).len() + mid.len();
            &&& spec_find_object(t, 0) == Some((q as int, q + obj.len() - 1))
            &&& t.subrange(q as int, q + obj.len() as int) == obj
        }),
{
    let rest = mid + obj + post;
    let raw = think_spans_text(spans) + mid + obj + post;
    assert(raw =~= think_spans_text(spans) + rest);
    lemma_strip_spans(spans, rest);
    assert(no_angle(rest)) by {
        assert forall|k: int| 0 <= k < rest.len() implies rest[k] != '<' by {
            if k < mid.len() {
                assert(rest[k] == mid[k]);
            } else if k < mid.len() + obj.len() {
                assert(rest[k] == obj[k - mid.len()]);
            } else {
                assert(rest[k] == post[k - mid.len() - obj.len()]);
            }
        }
    }
    lemma_no_angle_strip_identity(rest);
    let t = spec_strip_think(raw);
    let pp = spans_prose(spans);
    assert(t == pp + rest);
    lemma_spans_prose_plain(spans);
    let q = pp.len() + mid.len();
    let jj = q + obj.len() - 1;
    assert(t[q as int] == obj[0]);
    assert(t[jj] == obj[obj.len() - 1]);
    assert forall|k: int| 0 <= k < q implies t[k] != '{' by {
        if k < pp.len() {
            assert(t[k] == pp[k]);
        } else {
            assert(t[k] == mid[k - pp.len()]);
        }
    }
    assert forall|k: int| q < k < jj implies t[k] != '{' && t[k] != '}' by {
        assert(t[k] == obj[k - q]);
    }
    lemma_find_object_from(t, 0, q as int, jj);
    assert(t.subrange(q as int, q + obj.len() as int) =~= obj);
}

/// For all raw strings made of think spans and plain prose around a single
/// flat object span whose `decision` and `reason` fields are the strings
/// `d` and `r`, the parser returns exactly those values: text before,
/// between and after the spans is ignored.
pub proof fn lemma_parser_extracts_object(
    spans: Seq<(Seq<char>, Seq<char>)>,
    mid: Seq<char>,
    obj: Seq<char>,
    post: Seq<char>,
    d: Seq<char>,
    r: Seq<char>,
)
    requires
        spans_plain(spans),
        plain_prose(mid),
        plain_prose(post),
        flat_span(obj),
        json::spec_object_decision(obj) == Some((d, r)),
    ensures
        spec_parse_decision(think_spans_text(spans) + mid + obj + post) == Ok::<
            (Seq<char>, Seq<char>),
            ParseError,
        >((d, r)),
{
    lemma_pipeline_locates_object(spans, mid, obj, post);
}

/// For all raw strings of the same shape whose object span is not a
/// well-formed decision object — a missing, duplicated or wrong-typed
/// field, or broken JSON — parsing fails with `MalformedJson`.
pub proof fn lemma_malformed_object_means_malformed_json(
    spans: Seq<(Seq<char>, Seq<char>)>,
    mid: Seq<char>,
    obj: Seq<char>,
    post: Seq<char>,
)
    requires
        spans_plain(spans),
        plain_prose(mid),
        plain_prose(post),
        flat_span(obj),
        json::spec_object_decision(obj) is None,
    ensures
        spec_parse_decision(think_spans_text(spans) + mid + obj + post) == Err::<
            (Seq<char>, Seq<char>),
            ParseError,
        >(ParseError::MalformedJson),
{
    lemma_pipeline_locates_object(spans, mid, obj, post);
}

// ---------------------------------------------------------------------
// The longest-path measure is exact on acyclic graphs
// ---------------------------------------------------------------------
/// A decision edge of the graph: from a decision node to one of its
/// option targets.
pub open spec fn edge(t: GameTree, a: Seq<char>, b: Seq<char>) -> bool {
    t.spec_has(a) && match t.spec_node(a).node_type {
        NodeType::Decision(opts) => exists|m: int| 0 <= m < opts@.len() && opts@[m].id@ == b,
        NodeType::Terminal(_) => false,
    }
}

/// A path through the graph: at least its head, and a decision edge
/// between every two consecutive ids.
pub open spec fn is_path(t: GameTree, p: Seq<Seq<char>>) -> bool {
    p.len() >= 1 && (forall|n: int| 0 <= n < p.len() - 1 ==> edge(t, #[trigger] p[n], p[n + 1]))
}

/// A witness that decision edges form no cycle: a rank below the node
/// count that strictly decreases along every edge.  Such a rank exists
/// exactly for the graphs whose decision edges are acyclic.
pub open spec fn rank_acyclic(t: GameTree, rank: Map<Seq<char>, nat>) -> bool {
    &&& forall|k: int|
        0 <= k < t.nodes@.len() ==> rank.contains_key(#[trigger] t.nodes@[k].id@) && rank[
            t.nodes@[k].id@
        ] < t.nodes@.len()
    &&& forall|a: Seq<char>, b: Seq<char>|
        #[trigger] edge(t, a, b) ==> rank.contains_key(a) && rank.contains_key(b) && rank[b]
            < rank[a]
}

/// Skipping the max over the tail of an option list never grows it.
proof fn lemma_longest_opts_ge(
    t: GameTree,
    opts: Seq<crate::node::NextNode>,
    i: int,
    m: int,
    fuel: nat,
)
    requires
        0 <= i <= m < opts.len(),
    ensures
        spec_longest_opts(t, opts, i, fuel) >= spec_longest_from(t, opts[m].id@, fuel),
    decreases m - i,
{
    if i < m {
        lemma_longest_opts_ge(t, opts, i + 1, m, fuel);
    }
}

/// The max over an option list is reached at some option.
proof fn lemma_longest_opts_achieved(
    t: GameTree,
    opts: Seq<crate::node::NextNode>,
    i: int,
    fuel: nat,
)
    requires
        0 <= i < opts.len(),
    ensures
        exists|m: int|
            i <= m < opts.len() && spec_longest_opts(t, opts, i, fuel) == spec_longest_from(
                t,
                (#[trigger] opts[m]).id@,
                fuel,
            ),
    decreases opts.len() - i,
{
    if i + 1 < opts.len() {
        lemma_longest_opts_achieved(t, opts, i + 1, fuel);
        let m2 = choose|m2: int|
            i + 1 <= m2 < opts.len() && spec_longest_opts(t, opts, i + 1, fuel)
                == spec_longest_from(t, (#[trigger] opts[m2]).id@, fuel);
        if spec_longest_from(t, opts[i].id@, fuel) >= spec_longest_opts(t, opts, i + 1, fuel) {
            assert(spec_longest_opts(t, opts, i, fuel) == spec_longest_from(
                t,
                opts[i].id@,
                fuel,
            ));
        } else {
            assert(spec_longest_opts(t, opts, i, fuel) == spec_longest_from(
                t,
                opts[m2].id@,
                fuel,
            ));
        }
    } else {
        assert(spec_longest_opts(t, opts, i + 1, fuel) == 0);
        assert(spec_longest_opts(t, opts, i, fuel) == spec_longest_from(t, opts[i].id@, fuel));
    }
}

/// Along a ranked graph, a path can take at most `rank[head]` steps.
proof fn lemma_path_bounded_by_rank(t: GameTree, rank: Map<Seq<char>, nat>, p: Seq<Seq<char>>)
    requires
        rank_acyclic(t, rank),
        is_path(t, p),
        p.len() >= 2,
    ensures
        rank.contains_key(p[0]) && p.len() - 1 <= rank[p[0]],
    decreases p.len(),
{
    assert(edge(t, p[0], p[1]));
    if p.len() == 2 {
    } else {
        let p2 = p.drop_first();
        assert(is_path(t, p2)) by {
            assert forall|n: int| 0 <= n < p2.len() - 1 implies edge(
                t,
                #[trigger] p2[n],
                p2[n + 1],
            ) by {
                assert(p2[n] == p[n + 1] && p2[n + 1] == p[n + 2]);
            }
        }
        lemma_path_bounded_by_rank(t, rank, p2);
    }
}

/// Soundness of the measure: no path from `id` makes more decision steps
/// than `spec_longest_from` grants, given fuel for the path's length.
proof fn lemma_longest_sound(t: GameTree, p: Seq<Seq<char>>, fuel: nat)
    requires
        is_path(t, p),
        fuel >= p.len() - 1,
    ensures
        p.len() - 1 <= spec_longest_from(t, p[0], fuel),
    decreases p.len(),
{
    if p.len() >= 2 {
        assert(edge(t, p[0], p[1]));
        let opts = match t.spec_node(p[0]).node_type {
            NodeType::Decision(opts) => opts@,
            NodeType::Terminal(_) => Seq::empty(),
        };
        let m = choose|m: int| 0 <= m < opts.len() && opts[m].id@ == p[1];
        let p2 = p.drop_first();
        assert(is_path(t, p2)) by {
            assert forall|n: int| 0 <= n < p2.len() - 1 implies edge(
                t,
                #[trigger] p2[n],
                p2[n + 1],
            ) by {
                assert(p2[n] == p[n + 1] && p2[n + 1] == p[n + 2]);
            }
        }
        lemma_longest_sound(t, p2, (fuel - 1) as nat);
        lemma_longest_opts_ge(t, opts, 0, m, (fuel - 1) as nat);
    }
}

/// Completeness of the measure: with fuel at least `rank[id]`, some path
/// from `id` to a terminal node makes exactly `spec_longest_from` steps.
proof fn lemma_longest_achieved(
    t: GameTree,
    rank: Map<Seq<char>, nat>,
    id: Seq<char>,
    fuel: nat,
)
    requires
        t.wf(),
        rank_acyclic(t, rank),
        t.spec_has(id),
        rank.contains_key(id),
        fuel >= rank[id],
    ensures
        exists|p: Seq<Seq<char>>|
            is_path(t, p) && (#[trigger] p[0]) == id && t.spec_has(p.last())
                && t.spec_node(p.last()).node_type is Terminal && p.len() - 1
                == spec_longest_from(t, id, fuel),
    decreases fuel,
{
    let k0 = choose|k0: int| 0 <= k0 < t.nodes@.len() && t.nodes@[k0].id@ == id;
    assert(options_ok(t, t.nodes@[k0]));
    match t.spec_node(id).node_type {
        NodeType::Terminal(_) => {
            let p = seq![id];
            assert(is_path(t, p) && p[0] == id && p.last() == id);
            assert(p.len() - 1 == spec_longest_from(t, id, fuel));
        },
        NodeType::Decision(opts) => {
            lemma_longest_opts_achieved(t, opts@, 0, (fuel - 1) as nat);
            let m = choose|m: int|
                0 <= m < opts@.len() && spec_longest_opts(t, opts@, 0, (fuel - 1) as nat)
                    == spec_longest_from(t, (#[trigger] opts@[m]).id@, (fuel - 1) as nat);
            let b = opts@[m].id@;
            assert(edge(t, id, b));
            assert(rank[b] < rank[id]);
            lemma_longest_achieved(t, rank, b, (fuel - 1) as nat);
            let p2 = choose|p2: Seq<Seq<char>>|
                is_path(t, p2) && (#[trigger] p2[0]) == b && t.spec_has(p2.last())
                    && t.spec_node(p2.last()).node_type is Terminal && p2.len() - 1
                    == spec_longest_from(t, b, (fuel - 1) as nat);
            let p = seq![id] + p2;
            assert(is_path(t, p)) by {
                assert forall|n: int| 0 <= n < p.len() - 1 implies edge(
                    t,
                    #[trigger] p[n],
                    p[n + 1],
                ) by {
                    if n == 0 {
                        assert(p[0] == id && p[1] == p2[0]);
                    } else {
                        assert(p[n] == p2[n - 1] && p[n + 1] == p2[n]);
                    }
                }
            }
            assert(p.last() == p2.last());
            assert(fuel >= 1);
            assert(p.len() - 1 == spec_longest_from(t, id, fuel));
            assert(p[0] == id);
        },
    }
}

/// For any graph whose decision edges are acyclic — witnessed by a rank —
/// the longest-path measure from the start node, computed with the node
/// count as fuel, is exact: no start path exceeds it, and some
/// start-to-terminal path reaches it.  The executable `total_steps` always
/// terminates, its fuel bound makes that so; these two facts say its value
/// is the true longest-path length.
pub proof fn lemma_total_steps_exact(t: GameTree, rank: Map<Seq<char>, nat>)
    requires
        t.wf(),
        rank_acyclic(t, rank),
    ensures
        forall|p: Seq<Seq<char>>|
            #[trigger] is_path(t, p) && p[0] == t.start_node_id@ ==> p.len() - 1
                <= t.spec_total_steps(),
        exists|p: Seq<Seq<char>>|
            #[trigger] is_path(t, p) && p[0] == t.start_node_id@ && t.spec_has(p.last())
                && t.spec_node(p.last()).node_type is Terminal && p.len() - 1
                == t.spec_total_steps(),
{
    let start = t.start_node_id@;
    let fuel = t.nodes@.len() as nat;
    let k0 = choose|k0: int| 0 <= k0 < t.nodes@.len() && t.nodes@[k0].id@ == start;
    assert(rank.contains_key(start) && rank[start] < fuel) by {
        assert(t.nodes@[k0].id@ == start);
    }
    assert forall|p: Seq<Seq<char>>|
        #[trigger] is_path(t, p) && p[0] == start implies p.len() - 1
        <= t.spec_total_steps() by {
        if p.len() >= 2 {
            lemma_path_bounded_by_rank(t, rank, p);
            lemma_longest_sound(t, p, fuel);
        }
    }
    lemma_longest_achieved(t, rank, start, fuel);
}

} // verus!
