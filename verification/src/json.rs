//! The flat-object wire format the judge is expected to emit.
//!
//! The model must produce, somewhere in its completion, a single flat JSON
//! object with string fields `decision` and `reason`.  This module defines
//! that object grammar over character sequences — members are `"key": value`
//! pairs, values are strings, numbers, literals or (nested) arrays, but never
//! objects, since the extracted span contains no inner braces — and proves an
//! executable parser against it.  Unknown fields are tolerated and skipped;
//! a missing, duplicated or non-string `decision` or `reason` field makes the
//! object malformed.

use vstd::prelude::*;

verus! {

// ---------------------------------------------------------------------
// Character classes
// ---------------------------------------------------------------------
pub open spec fn is_json_ws(c: char) -> bool {
    c == ' ' || c == '\n' || c == '\r' || c == '\t'
}

pub open spec fn is_digit(c: char) -> bool {
    48 <= c as u32 <= 57
}

/// The value of a hexadecimal digit, if `c` is one.
pub open spec fn spec_hex_val(c: char) -> Option<int> {
    if 48 <= c as u32 <= 57 {
        Some(c as u32 - 48)
    } else if 97 <= c as u32 <= 102 {
        Some(c as u32 - 87)
    } else if 65 <= c as u32 <= 70 {
        Some(c as u32 - 55)
    } else {
        None
    }
}

// ---------------------------------------------------------------------
// Whitespace
// ---------------------------------------------------------------------
/// The first position at or after `pos` holding a non-whitespace character.
pub open spec fn spec_skip_ws(s: Seq<char>, pos: int) -> int
    decreases s.len() - pos,
{
    if 0 <= pos < s.len() && is_json_ws(s[pos]) {
        spec_skip_ws(s, pos + 1)
    } else {
        pos
    }
}

pub proof fn lemma_skip_ws_bounds(s: Seq<char>, pos: int)
    requires
        0 <= pos <= s.len(),
    ensures
        pos <= spec_skip_ws(s, pos) <= s.len(),
    decreases s.len() - pos,
{
    if pos < s.len() && is_json_ws(s[pos]) {
        lemma_skip_ws_bounds(s, pos + 1);
    }
}

// ---------------------------------------------------------------------
// Strings
// ---------------------------------------------------------------------
/// The value of the four hexadecimal digits at `pos`, if they are there.
pub open spec fn spec_hex4_at(s: Seq<char>, pos: int) -> Option<int> {
    if 0 <= pos && pos + 4 <= s.len() {
        match (spec_hex_val(s[pos]), spec_hex_val(s[pos + 1]), spec_hex_val(s[pos + 2]),
        spec_hex_val(s[pos + 3])) {
            (Some(a), Some(b), Some(c), Some(d)) => Some(a * 4096 + b * 256 + c * 16 + d),
            _ => None,
        }
    } else {
        None
    }
}

/// A `\u` escape starting at `pos` (the first hex digit): either a scalar
/// value, or a surrogate pair written as two consecutive `\u` escapes.
/// A lone surrogate is rejected, as the original wire format demands.
pub open spec fn spec_unicode_escape_at(s: Seq<char>, pos: int) -> Option<(char, int)> {
    match spec_hex4_at(s, pos) {
        None => None,
        Some(v) => if v < 0xD800 || 0xE000 <= v {
            Some((v as char, pos + 4))
        } else if v < 0xDC00 {
            if pos + 10 <= s.len() && s[pos + 4] == '\\' && s[pos + 5] == 'u' {
                match spec_hex4_at(s, pos + 6) {
                    None => None,
                    Some(lo) => if 0xDC00 <= lo < 0xE000 {
                        Some(((0x10000 + (v - 0xD800) * 0x400 + (lo - 0xDC00)) as char, pos + 10))
                    } else {
                        None
                    },
                }
            } else {
                None
            }
        } else {
            None
        },
    }
}

/// The escape sequence starting at `pos`, which is the character right after
/// a backslash; yields the decoded character and the position after it.
pub open spec fn spec_escape_at(s: Seq<char>, pos: int) -> Option<(char, int)> {
    if 0 <= pos < s.len() {
        let c = s[pos];
        if c == '"' {
            Some(('"', pos + 1))
        } else if c == '\\' {
            Some(('\\', pos + 1))
        } else if c == '/' {
            Some(('/', pos + 1))
        } else if c == 'b' {
            Some(('\u{8}', pos + 1))
        } else if c == 'f' {
            Some(('\u{c}', pos + 1))
        } else if c == 'n' {
            Some(('\n', pos + 1))
        } else if c == 'r' {
            Some(('\r', pos + 1))
        } else if c == 't' {
            Some(('\t', pos + 1))
        } else if c == 'u' {
            spec_unicode_escape_at(s, pos + 1)
        } else {
            None
        }
    } else {
        None
    }
}

/// The body of a string whose opening quote sits just before `pos`: the
/// decoded content and the position after the closing quote.  Unescaped
/// control characters are rejected.
pub open spec fn spec_string_body(s: Seq<char>, pos: int) -> Option<(Seq<char>, int)>
    decreases s.len() - pos,
{
    if pos < 0 || pos >= s.len() {
        None
    } else if s[pos] == '"' {
        Some((Seq::empty(), pos + 1))
    } else if s[pos] == '\\' {
        match spec_escape_at(s, pos + 1) {
            None => None,
            Some((c, p2)) => match spec_string_body(s, p2) {
                None => None,
                Some((rest, end)) => Some((seq![c] + rest, end)),
            },
        }
    } else if (s[pos] as u32) < 32 {
        None
    } else {
        match spec_string_body(s, pos + 1) {
            None => None,
            Some((rest, end)) => Some((seq![s[pos]] + rest, end)),
        }
    }
}

/// A complete string token at `pos`: content and position after the closing
/// quote.
pub open spec fn spec_string_at(s: Seq<char>, pos: int) -> Option<(Seq<char>, int)> {
    if 0 <= pos < s.len() && s[pos] == '"' {
        spec_string_body(s, pos + 1)
    } else {
        None
    }
}

pub proof fn lemma_string_body_bounds(s: Seq<char>, pos: int)
    requires
        0 <= pos <= s.len(),
    ensures
        spec_string_body(s, pos) matches Some(r) ==> pos < r.1 <= s.len(),
    decreases s.len() - pos,
{
    if 0 <= pos < s.len() {
        if s[pos] == '\\' {
            if let Some((c, p2)) = spec_escape_at(s, pos + 1) {
                lemma_string_body_bounds(s, p2);
            }
        } else {
            lemma_string_body_bounds(s, pos + 1);
        }
    }
}

pub proof fn lemma_string_at_bounds(s: Seq<char>, pos: int)
    requires
        0 <= pos <= s.len(),
    ensures
        spec_string_at(s, pos) matches Some(r) ==> pos + 2 <= r.1 <= s.len(),
{
    if 0 <= pos < s.len() && s[pos] == '"' {
        lemma_string_body_bounds(s, pos + 1);
    }
}

// ---------------------------------------------------------------------
// Numbers
// ---------------------------------------------------------------------
/// The end of the maximal digit run starting at `pos`.
pub open spec fn spec_digits_end(s: Seq<char>, pos: int) -> int
    decreases s.len() - pos,
{
    if 0 <= pos < s.len() && is_digit(s[pos]) {
        spec_digits_end(s, pos + 1)
    } else {
        pos
    }
}

pub proof fn lemma_digits_end_bounds(s: Seq<char>, pos: int)
    requires
        0 <= pos <= s.len(),
    ensures
        pos <= spec_digits_end(s, pos) <= s.len(),
    decreases s.len() - pos,
{
    if pos < s.len() && is_digit(s[pos]) {
        lemma_digits_end_bounds(s, pos + 1);
    }
}

/// The end of a JSON number token starting at `pos`:
/// `-? (0 | [1-9][0-9]*) (. [0-9]+)? ([eE] [+-]? [0-9]+)?`.
pub open spec fn spec_number_end(s: Seq<char>, pos: int) -> Option<int> {
    let p1 = if 0 <= pos < s.len() && s[pos] == '-' {
        pos + 1
    } else {
        pos
    };
    if 0 <= p1 < s.len() && is_digit(s[p1]) {
        let p2 = if s[p1] == '0' {
            p1 + 1
        } else {
            spec_digits_end(s, p1)
        };
        let p3o = if p2 < s.len() && s[p2] == '.' {
            if p2 + 1 < s.len() && is_digit(s[p2 + 1]) {
                Some(spec_digits_end(s, p2 + 1))
            } else {
                None
            }
        } else {
            Some(p2)
        };
        match p3o {
            None => None,
            Some(p3) => if p3 < s.len() && (s[p3] == 'e' || s[p3] == 'E') {
                let p4 = if p3 + 1 < s.len() && (s[p3 + 1] == '+' || s[p3 + 1] == '-') {
                    p3 + 2
                } else {
                    p3 + 1
                };
                if p4 < s.len() && is_digit(s[p4]) {
                    Some(spec_digits_end(s, p4))
                } else {
                    None
                }
            } else {
                Some(p3)
            },
        }
    } else {
        None
    }
}

pub proof fn lemma_number_end_bounds(s: Seq<char>, pos: int)
    requires
        0 <= pos <= s.len(),
    ensures
        spec_number_end(s, pos) matches Some(e) ==> pos < e <= s.len(),
{
    let p1 = if 0 <= pos < s.len() && s[pos] == '-' {
        pos + 1
    } else {
        pos
    };
    if 0 <= p1 < s.len() && is_digit(s[p1]) {
        let p2 = if s[p1] == '0' {
            p1 + 1
        } else {
            spec_digits_end(s, p1)
        };
        lemma_digits_end_bounds(s, p1 + 1);
        if p2 < s.len() && s[p2] == '.' {
            if p2 + 1 < s.len() && is_digit(s[p2 + 1]) {
                lemma_digits_end_bounds(s, p2 + 1);
                let p3 = spec_digits_end(s, p2 + 1);
                if p3 < s.len() && (s[p3] == 'e' || s[p3] == 'E') {
                    let p4 = if p3 + 1 < s.len() && (s[p3 + 1] == '+' || s[p3 + 1] == '-') {
                        p3 + 2
                    } else {
                        p3 + 1
                    };
                    if p4 < s.len() && is_digit(s[p4]) {
                        lemma_digits_end_bounds(s, p4);
                    }
                }
            }
        } else {
            if p2 < s.len() && (s[p2] == 'e' || s[p2] == 'E') {
                let p4 = if p2 + 1 < s.len() && (s[p2 + 1] == '+' || s[p2 + 1] == '-') {
                    p2 + 2
                } else {
                    p2 + 1
                };
                if p4 < s.len() && is_digit(s[p4]) {
                    lemma_digits_end_bounds(s, p4);
                }
            }
        }
    }
}

// ---------------------------------------------------------------------
// Skipping a value of any type
// ---------------------------------------------------------------------
/// The scanner state while skipping over one complete value: expecting a
/// value, expecting a value or a closing bracket (right after `[`), or
/// sitting right after a completed value.
#[derive(Clone, Copy, Debug, PartialEq, Eq, Structural)]
pub enum ScanState {
    Value,
    ValueOrClose,
    After,
}

/// Scans one complete value (string, number, literal, or arbitrarily nested
/// arrays of those) starting at `pos` with `depth` open brackets, and yields
/// the position right after it.  Objects cannot occur: the span this grammar
/// is applied to holds no inner braces.
pub open spec fn spec_scan_value(s: Seq<char>, pos: int, depth: nat, st: ScanState) -> Option<int>
    decreases s.len() - pos,
{
    if st is After && depth == 0 {
        Some(pos)
    } else if pos < 0 || pos >= s.len() {
        None
    } else {
        let c = s[pos];
        if st is After {
            if is_json_ws(c) {
                spec_scan_value(s, pos + 1, depth, ScanState::After)
            } else if c == ',' {
                spec_scan_value(s, pos + 1, depth, ScanState::Value)
            } else if c == ']' {
                spec_scan_value(s, pos + 1, (depth - 1) as nat, ScanState::After)
            } else {
                None
            }
        } else {
            if is_json_ws(c) {
                spec_scan_value(s, pos + 1, depth, st)
            } else if c == '[' {
                spec_scan_value(s, pos + 1, depth + 1, ScanState::ValueOrClose)
            } else if c == ']' && st is ValueOrClose {
                spec_scan_value(s, pos + 1, (depth - 1) as nat, ScanState::After)
            } else if c == '"' {
                match spec_string_at(s, pos) {
                    None => None,
                    Some((v, e)) => {
                        proof {
                            lemma_string_at_bounds(s, pos);
                        }
                        spec_scan_value(s, e, depth, ScanState::After)
                    },
                }
            } else if c == 't' {
                if pos + 4 <= s.len() && s[pos + 1] == 'r' && s[pos + 2] == 'u' && s[pos + 3]
                    == 'e' {
                    spec_scan_value(s, pos + 4, depth, ScanState::After)
                } else {
                    None
                }
            } else if c == 'f' {
                if pos + 5 <= s.len() && s[pos + 1] == 'a' && s[pos + 2] == 'l' && s[pos + 3]
                    == 's' && s[pos + 4] == 'e' {
                    spec_scan_value(s, pos + 5, depth, ScanState::After)
                } else {
                    None
                }
            } else if c == 'n' {
                if pos + 4 <= s.len() && s[pos + 1] == 'u' && s[pos + 2] == 'l' && s[pos + 3]
                    == 'l' {
                    spec_scan_value(s, pos + 4, depth, ScanState::After)
                } else {
                    None
                }
            } else if c == '-' || is_digit(c) {
                match spec_number_end(s, pos) {
                    None => None,
                    Some(e) => {
                        proof {
                            lemma_number_end_bounds(s, pos);
                        }
                        spec_scan_value(s, e, depth, ScanState::After)
                    },
                }
            } else {
                None
            }
        }
    }
}

pub proof fn lemma_scan_value_bounds(s: Seq<char>, pos: int, depth: nat, st: ScanState)
    requires
        0 <= pos <= s.len(),
    ensures
        spec_scan_value(s, pos, depth, st) matches Some(e) ==> pos <= e <= s.len(),
    decreases s.len() - pos,
{
    if st is After && depth == 0 {
    } else if 0 <= pos < s.len() {
        let c = s[pos];
        if st is After {
            if is_json_ws(c) {
                lemma_scan_value_bounds(s, pos + 1, depth, ScanState::After);
            } else if c == ',' {
                lemma_scan_value_bounds(s, pos + 1, depth, ScanState::Value);
            } else if c == ']' {
                lemma_scan_value_bounds(s, pos + 1, (depth - 1) as nat, ScanState::After);
            }
        } else {
            if is_json_ws(c) {
                lemma_scan_value_bounds(s, pos + 1, depth, st);
            } else if c == '[' {
                lemma_scan_value_bounds(s, pos + 1, depth + 1, ScanState::ValueOrClose);
            } else if c == ']' && st is ValueOrClose {
                lemma_scan_value_bounds(s, pos + 1, (depth - 1) as nat, ScanState::After);
            } else if c == '"' {
                lemma_string_at_bounds(s, pos);
                if let Some((v, e)) = spec_string_at(s, pos) {
                    lemma_scan_value_bounds(s, e, depth, ScanState::After);
                }
            } else if c == 't' {
                if pos + 4 <= s.len() && s[pos + 1] == 'r' && s[pos + 2] == 'u' && s[pos + 3]
                    == 'e' {
                    lemma_scan_value_bounds(s, pos + 4, depth, ScanState::After);
                }
            } else if c == 'f' {
                if pos + 5 <= s.len() && s[pos + 1] == 'a' && s[pos + 2] == 'l' && s[pos + 3]
                    == 's' && s[pos + 4] == 'e' {
                    lemma_scan_value_bounds(s, pos + 5, depth, ScanState::After);
                }
            } else if c == 'n' {
                if pos + 4 <= s.len() && s[pos + 1] == 'u' && s[pos + 2] == 'l' && s[pos + 3]
                    == 'l' {
                    lemma_scan_value_bounds(s, pos + 4, depth, ScanState::After);
                }
            } else if c == '-' || is_digit(c) {
                lemma_number_end_bounds(s, pos);
                if let Some(e) = spec_number_end(s, pos) {
                    lemma_scan_value_bounds(s, e, depth, ScanState::After);
                }
            }
        }
    }
}

// ---------------------------------------------------------------------
// Members and the whole object
// ---------------------------------------------------------------------
/// The member list of an object, starting at the opening quote of the first
/// key (whitespace already skipped): the keys with their values — `Some`
/// content for a string value, `None` for a value of any other type — and
/// the position right after the closing `}`.
pub open spec fn spec_members(s: Seq<char>, pos: int) -> Option<
    (Seq<(Seq<char>, Option<Seq<char>>)>, int),
>
    decreases s.len() - pos,
{
    if pos < 0 {
        None
    } else {
        match spec_string_at(s, pos) {
            None => None,
            Some((key, e1)) => {
                proof {
                    lemma_string_at_bounds(s, pos);
                    lemma_skip_ws_bounds(s, e1);
                }
                let p2 = spec_skip_ws(s, e1);
                if p2 < s.len() && s[p2] == ':' {
                    proof {
                        lemma_skip_ws_bounds(s, p2 + 1);
                    }
                    let p3 = spec_skip_ws(s, p2 + 1);
                    let valres: Option<(Option<Seq<char>>, int)> = if 0 <= p3 < s.len() && s[p3]
                        == '"' {
                        match spec_string_at(s, p3) {
                            None => None,
                            Some((v, e)) => Some((Some(v), e)),
                        }
                    } else {
                        match spec_scan_value(s, p3, 0, ScanState::Value) {
                            None => None,
                            Some(e) => Some((None, e)),
                        }
                    };
                    match valres {
                        None => None,
                        Some((v, e2)) => {
                            proof {
                                lemma_string_at_bounds(s, p3);
                                lemma_scan_value_bounds(s, p3, 0, ScanState::Value);
                                lemma_skip_ws_bounds(s, e2);
                            }
                            let p4 = spec_skip_ws(s, e2);
                            if p4 < s.len() && s[p4] == ',' {
                                proof {
                                    lemma_skip_ws_bounds(s, p4 + 1);
                                }
                                let p5 = spec_skip_ws(s, p4 + 1);
                                match spec_members(s, p5) {
                                    None => None,
                                    Some((rest, end)) => Some((seq![(key, v)] + rest, end)),
                                }
                            } else if p4 < s.len() && s[p4] == '}' {
                                Some((seq![(key, v)], p4 + 1))
                            } else {
                                None
                            }
                        },
                    }
                } else {
                    None
                }
            },
        }
    }
}

/// The member list of a complete object span: the whole of `s` must be
/// `{ ... }` with nothing before or after.
pub open spec fn spec_object(s: Seq<char>) -> Option<Seq<(Seq<char>, Option<Seq<char>>)>> {
    if s.len() > 0 && s[0] == '{' {
        let p = spec_skip_ws(s, 1);
        if p < s.len() && s[p] == '}' {
            if p + 1 == s.len() {
                Some(Seq::empty())
            } else {
                None
            }
        } else {
            match spec_members(s, p) {
                None => None,
                Some((ms, end)) => if end == s.len() {
                    Some(ms)
                } else {
                    None
                },
            }
        }
    } else {
        None
    }
}

// ---------------------------------------------------------------------
// Field extraction
// ---------------------------------------------------------------------
/// How many members from index `i` on carry the key `key`.
pub open spec fn spec_count_key_from(
    ms: Seq<(Seq<char>, Option<Seq<char>>)>,
    key: Seq<char>,
    i: int,
) -> nat
    decreases ms.len() - i,
{
    if 0 <= i < ms.len() {
        (if ms[i].0 == key {
            1nat
        } else {
            0nat
        }) + spec_count_key_from(ms, key, i + 1)
    } else {
        0
    }
}

/// The value of the first member from index `i` on carrying the key `key`.
pub open spec fn spec_first_val_from(
    ms: Seq<(Seq<char>, Option<Seq<char>>)>,
    key: Seq<char>,
    i: int,
) -> Option<Option<Seq<char>>>
    decreases ms.len() - i,
{
    if 0 <= i < ms.len() {
        if ms[i].0 == key {
            Some(ms[i].1)
        } else {
            spec_first_val_from(ms, key, i + 1)
        }
    } else {
        None
    }
}

/// The `decision` and `reason` string values of a member list, if each key
/// occurs exactly once and each value is a string — the shape the judge
/// protocol requires.
pub open spec fn spec_decision_fields(ms: Seq<(Seq<char>, Option<Seq<char>>)>) -> Option<
    (Seq<char>, Seq<char>),
> {
    if spec_count_key_from(ms, "decision"@, 0) == 1 && spec_count_key_from(ms, "reason"@, 0)
        == 1 {
        match (spec_first_val_from(ms, "decision"@, 0), spec_first_val_from(ms, "reason"@, 0)) {
            (Some(Some(d)), Some(Some(r))) => Some((d, r)),
            _ => None,
        }
    } else {
        None
    }
}

/// What the object span `s` yields: the `decision` and `reason` values, or
/// nothing if the span is not an object of the required shape.
pub open spec fn spec_object_decision(s: Seq<char>) -> Option<(Seq<char>, Seq<char>)> {
    match spec_object(s) {
        None => None,
        Some(ms) => spec_decision_fields(ms),
    }
}

// ---------------------------------------------------------------------
// The executable parser, proved against the grammar above
// ---------------------------------------------------------------------
fn is_digit_ch(c: char) -> (r: bool)
    ensures
        r == is_digit(c),
{
    let u = c as u32;
    48 <= u && u <= 57
}

fn is_ws_ch(c: char) -> (r: bool)
    ensures
        r == is_json_ws(c),
{
    c == ' ' || c == '\n' || c == '\r' || c == '\t'
}

fn hex_val(c: char) -> (r: Option<u32>)
    ensures
        r is None <==> spec_hex_val(c) is None,
        r matches Some(v) ==> spec_hex_val(c) == Some(v as int) && v < 16,
{
    let u = c as u32;
    if 48 <= u && u <= 57 {
        Some(u - 48)
    } else if 97 <= u && u <= 102 {
        Some(u - 87)
    } else if 65 <= u && u <= 70 {
        Some(u - 55)
    } else {
        None
    }
}

fn skip_ws(cv: &Vec<char>, pos: usize) -> (r: usize)
    requires
        pos <= cv.len(),
    ensures
        r as int == spec_skip_ws(cv@, pos as int),
        pos <= r <= cv.len(),
{
    let mut p = pos;
    loop
        invariant
            pos <= p <= cv.len(),
            spec_skip_ws(cv@, pos as int) == spec_skip_ws(cv@, p as int),
        decreases cv.len() - p,
    {
        if p < cv.len() && is_ws_ch(cv[p]) {
            p = p + 1;
        } else {
            return p;
        }
    }
}

fn hex4_at(cv: &Vec<char>, pos: usize) -> (r: Option<u32>)
    requires
        pos <= cv.len(),
    ensures
        r is None <==> spec_hex4_at(cv@, pos as int) is None,
        r matches Some(v) ==> spec_hex4_at(cv@, pos as int) == Some(v as int) && v < 0x10000,
{
    if cv.len() - pos < 4 {
        return None;
    }
    let a = hex_val(cv[pos]);
    let b = hex_val(cv[pos + 1]);
    let c = hex_val(cv[pos + 2]);
    let d = hex_val(cv[pos + 3]);
    match (a, b, c, d) {
        (Some(a), Some(b), Some(c), Some(d)) => Some(a * 4096 + b * 256 + c * 16 + d),
        _ => None,
    }
}

fn unicode_escape_at(cv: &Vec<char>, pos: usize) -> (r: Option<(char, usize)>)
    requires
        pos <= cv.len(),
    ensures
        r is None <==> spec_unicode_escape_at(cv@, pos as int) is None,
        r matches Some((c, e)) ==> spec_unicode_escape_at(cv@, pos as int) == Some((c, e as int))
            && e <= cv.len(),
{
    match hex4_at(cv, pos) {
        None => None,
        Some(v) => {
            if v < 0xD800 || 0xE000 <= v {
                match crate::strutil::char_from_code(v) {
                    Some(c) => {
                        assert(c == (v as int) as char);
                        Some((c, pos + 4))
                    },
                    None => {
                        assert(false);
                        None
                    },
                }
            } else if v < 0xDC00 {
                if cv.len() - pos >= 10 && cv[pos + 4] == '\\' && cv[pos + 5] == 'u' {
                    match hex4_at(cv, pos + 6) {
                        None => None,
                        Some(lo) => {
                            if 0xDC00 <= lo && lo < 0xE000 {
                                let code = 0x10000 + (v - 0xD800) * 0x400 + (lo - 0xDC00);
                                match crate::strutil::char_from_code(code) {
                                    Some(c) => {
                                        assert(c == (code as int) as char);
                                        Some((c, pos + 10))
                                    },
                                    None => {
                                        assert(false);
                                        None
                                    },
                                }
                            } else {
                                None
                            }
                        },
                    }
                } else {
                    None
                }
            } else {
                None
            }
        },
    }
}

fn escape_at(cv: &Vec<char>, pos: usize) -> (r: Option<(char, usize)>)
    requires
        pos <= cv.len(),
    ensures
        r is None <==> spec_escape_at(cv@, pos as int) is None,
        r matches Some((c, e)) ==> spec_escape_at(cv@, pos as int) == Some((c, e as int)) && pos
            < e <= cv.len(),
{
    if pos >= cv.len() {
        return None;
    }
    let c = cv[pos];
    if c == '"' {
        Some(('"', pos + 1))
    } else if c == '\\' {
        Some(('\\', pos + 1))
    } else if c == '/' {
        Some(('/', pos + 1))
    } else if c == 'b' {
        Some(('\u{8}', pos + 1))
    } else if c == 'f' {
        Some(('\u{c}', pos + 1))
    } else if c == 'n' {
        Some(('\n', pos + 1))
    } else if c == 'r' {
        Some(('\r', pos + 1))
    } else if c == 't' {
        Some(('\t', pos + 1))
    } else if c == 'u' {
        unicode_escape_at(cv, pos + 1)
    } else {
        None
    }
}

fn string_body(cv: &Vec<char>, pos: usize) -> (r: Option<(Vec<char>, usize)>)
    requires
        pos <= cv.len(),
    ensures
        r is None <==> spec_string_body(cv@, pos as int) is None,
        r matches Some((content, e)) ==> spec_string_body(cv@, pos as int) == Some(
            (content@, e as int),
        ) && pos < e <= cv.len(),
    decreases cv.len() - pos,
{
    if pos >= cv.len() {
        return None;
    }
    let c = cv[pos];
    if c == '"' {
        Some((Vec::new(), pos + 1))
    } else if c == '\\' {
        match escape_at(cv, pos + 1) {
            None => None,
            Some((ec, p2)) => match string_body(cv, p2) {
                None => None,
                Some((mut rest, end)) => {
                    let ghost g = rest@;
                    rest.insert(0, ec);
                    assert(rest@ =~= seq![ec] + g);
                    Some((rest, end))
                },
            },
        }
    } else if (c as u32) < 32 {
        None
    } else {
        match string_body(cv, pos + 1) {
            None => None,
            Some((mut rest, end)) => {
                let ghost g = rest@;
                rest.insert(0, c);
                assert(rest@ =~= seq![c] + g);
                Some((rest, end))
            },
        }
    }
}

fn string_at(cv: &Vec<char>, pos: usize) -> (r: Option<(Vec<char>, usize)>)
    requires
        pos <= cv.len(),
    ensures
        r is None <==> spec_string_at(cv@, pos as int) is None,
        r matches Some((content, e)) ==> spec_string_at(cv@, pos as int) == Some(
            (content@, e as int),
        ) && pos < e <= cv.len(),
{
    if pos < cv.len() && cv[pos] == '"' {
        string_body(cv, pos + 1)
    } else {
        None
    }
}

fn digits_end(cv: &Vec<char>, pos: usize) -> (r: usize)
    requires
        pos <= cv.len(),
    ensures
        r as int == spec_digits_end(cv@, pos as int),
        pos <= r <= cv.len(),
{
    let mut p = pos;
    loop
        invariant
            pos <= p <= cv.len(),
            spec_digits_end(cv@, pos as int) == spec_digits_end(cv@, p as int),
        decreases cv.len() - p,
    {
        if p < cv.len() && is_digit_ch(cv[p]) {
            p = p + 1;
        } else {
            return p;
        }
    }
}

fn number_end(cv: &Vec<char>, pos: usize) -> (r: Option<usize>)
    requires
        pos <= cv.len(),
    ensures
        r is None <==> spec_number_end(cv@, pos as int) is None,
        r matches Some(e) ==> spec_number_end(cv@, pos as int) == Some(e as int) && pos < e
            <= cv.len(),
{
    let p1 = if pos < cv.len() && cv[pos] == '-' {
        pos + 1
    } else {
        pos
    };
    if !(p1 < cv.len() && is_digit_ch(cv[p1])) {
        return None;
    }
    let p2 = if cv[p1] == '0' {
        p1 + 1
    } else {
        digits_end(cv, p1)
    };
    proof {
        if cv@[p1 as int] != '0' {
            lemma_digits_end_bounds(cv@, p1 + 1);
        }
    }
    let p3 = if p2 < cv.len() && cv[p2] == '.' {
        if p2 + 1 < cv.len() && is_digit_ch(cv[p2 + 1]) {
            digits_end(cv, p2 + 1)
        } else {
            return None;
        }
    } else {
        p2
    };
    if p3 < cv.len() && (cv[p3] == 'e' || cv[p3] == 'E') {
        let p4 = if p3 + 1 < cv.len() && (cv[p3 + 1] == '+' || cv[p3 + 1] == '-') {
            p3 + 2
        } else {
            p3 + 1
        };
        if p4 < cv.len() && is_digit_ch(cv[p4]) {
            Some(digits_end(cv, p4))
        } else {
            None
        }
    } else {
        Some(p3)
    }
}

fn scan_value(cv: &Vec<char>, pos: usize, depth: usize, st: ScanState) -> (r: Option<usize>)
    requires
        pos <= cv.len(),
        depth <= pos,
        st == ScanState::ValueOrClose ==> depth >= 1,
    ensures
        r is None <==> spec_scan_value(cv@, pos as int, depth as nat, st) is None,
        r matches Some(e) ==> spec_scan_value(cv@, pos as int, depth as nat, st) == Some(e as int)
            && pos <= e <= cv.len(),
    decreases cv.len() - pos,
{
    if st == ScanState::After && depth == 0 {
        return Some(pos);
    }
    if pos >= cv.len() {
        return None;
    }
    let c = cv[pos];
    if st == ScanState::After {
        if is_ws_ch(c) {
            scan_value(cv, pos + 1, depth, ScanState::After)
        } else if c == ',' {
            scan_value(cv, pos + 1, depth, ScanState::Value)
        } else if c == ']' {
            scan_value(cv, pos + 1, depth - 1, ScanState::After)
        } else {
            None
        }
    } else {
        if is_ws_ch(c) {
            scan_value(cv, pos + 1, depth, st)
        } else if c == '[' {
            scan_value(cv, pos + 1, depth + 1, ScanState::ValueOrClose)
        } else if c == ']' && st == ScanState::ValueOrClose {
            scan_value(cv, pos + 1, depth - 1, ScanState::After)
        } else if c == '"' {
            match string_at(cv, pos) {
                None => None,
                Some((v, e)) => scan_value(cv, e, depth, ScanState::After),
            }
        } else if c == 't' {
            if cv.len() - pos >= 4 && cv[pos + 1] == 'r' && cv[pos + 2] == 'u' && cv[pos + 3]
                == 'e' {
                scan_value(cv, pos + 4, depth, ScanState::After)
            } else {
                None
            }
        } else if c == 'f' {
            if cv.len() - pos >= 5 && cv[pos + 1] == 'a' && cv[pos + 2] == 'l' && cv[pos + 3]
                == 's' && cv[pos + 4] == 'e' {
                scan_value(cv, pos + 5, depth, ScanState::After)
            } else {
                None
            }
        } else if c == 'n' {
            if cv.len() - pos >= 4 && cv[pos + 1] == 'u' && cv[pos + 2] == 'l' && cv[pos + 3]
                == 'l' {
                scan_value(cv, pos + 4, depth, ScanState::After)
            } else {
                None
            }
        } else if c == '-' || is_digit_ch(c) {
            match number_end(cv, pos) {
                None => None,
                Some(e) => scan_value(cv, e, depth, ScanState::After),
            }
        } else {
            None
        }
    }
}

/// A key sequence paired with its value: the decoded content of a string
/// value, or `None` for a value of any other type.
type RawMember = (Vec<char>, Option<Vec<char>>);

fn members(cv: &Vec<char>, pos: usize) -> (r: Option<(Vec<RawMember>, usize)>)
    requires
        pos <= cv.len(),
    ensures
        r is None <==> spec_members(cv@, pos as int) is None,
        r matches Some((ps, end)) ==> spec_members(cv@, pos as int) == Some(
            (ps.deep_view(), end as int),
        ) && end <= cv.len(),
    decreases cv.len() - pos,
{
    match string_at(cv, pos) {
        None => None,
        Some((key, e1)) => {
            let p2 = skip_ws(cv, e1);
            if p2 < cv.len() && cv[p2] == ':' {
                let p3 = skip_ws(cv, p2 + 1);
                assert(key.deep_view() =~= key@);
                let valres: Option<(Option<Vec<char>>, usize)> = if p3 < cv.len() && cv[p3]
                    == '"' {
                    match string_at(cv, p3) {
                        None => None,
                        Some((v, e)) => {
                            assert(v.deep_view() =~= v@);
                            Some((Some(v), e))
                        },
                    }
                } else {
                    match scan_value(cv, p3, 0, ScanState::Value) {
                        None => None,
                        Some(e) => Some((None, e)),
                    }
                };
                match valres {
                    None => None,
                    Some((v, e2)) => {
                        let p4 = skip_ws(cv, e2);
                        if p4 < cv.len() && cv[p4] == ',' {
                            let p5 = skip_ws(cv, p4 + 1);
                            match members(cv, p5) {
                                None => None,
                                Some((mut rest, end)) => {
                                    let ghost g = rest.deep_view();
                                    let ghost kv = (key.deep_view(), v.deep_view());
                                    rest.insert(0, (key, v));
                                    assert(rest.deep_view() =~= seq![kv] + g);
                                    Some((rest, end))
                                },
                            }
                        } else if p4 < cv.len() && cv[p4] == '}' {
                            let ghost kv = (key.deep_view(), v.deep_view());
                            let mut ps: Vec<RawMember> = Vec::new();
                            ps.push((key, v));
                            assert(ps.deep_view() =~= seq![kv]);
                            Some((ps, p4 + 1))
                        } else {
                            None
                        }
                    },
                }
            } else {
                None
            }
        },
    }
}

/// Element-wise equality of two character vectors.
fn chars_eq(a: &Vec<char>, b: &Vec<char>) -> (r: bool)
    ensures
        r == (a@ == b@),
{
    if a.len() != b.len() {
        assert(a@ != b@);
        return false;
    }
    let mut i: usize = 0;
    while i < a.len()
        invariant
            i <= a.len(),
            a.len() == b.len(),
            forall|k: int| 0 <= k < i ==> a@[k] == b@[k],
        decreases a.len() - i,
    {
        if a[i] != b[i] {
            return false;
        }
        i = i + 1;
    }
    assert(a@ =~= b@);
    true
}

fn copy_chars(a: &Vec<char>) -> (r: Vec<char>)
    ensures
        r@ == a@,
{
    let mut r: Vec<char> = Vec::new();
    let mut i: usize = 0;
    while i < a.len()
        invariant
            i <= a.len(),
            r@ == a@.subrange(0, i as int),
        decreases a.len() - i,
    {
        r.push(a[i]);
        assert(r@ =~= a@.subrange(0, i + 1 as int));
        i = i + 1;
    }
    assert(r@ =~= a@);
    r
}

/// Parses a complete `{ ... }` span as the judge's wire object and yields
/// the `decision` and `reason` string values.  Returns `None` exactly when
/// the span is not an object whose `decision` and `reason` fields each occur
/// once, as strings.
pub fn parse_flat_object(cv: &Vec<char>) -> (r: Option<(Vec<char>, Vec<char>)>)
    ensures
        r is None <==> spec_object_decision(cv@) is None,
        r matches Some(p) ==> spec_object_decision(cv@) == Some((p.0@, p.1@)),
{
    if !(cv.len() > 0 && cv[0] == '{') {
        return None;
    }
    let p = skip_ws(cv, 1);
    if p < cv.len() && cv[p] == '}' {
        // An empty object has no `decision` field at all.
        return None;
    }
    match members(cv, p) {
        None => None,
        Some((ps, end)) => {
            if end != cv.len() {
                return None;
            }
            let ghost msv = ps.deep_view();
            let dkey = crate::strutil::chars_of("decision");
            let rkey = crate::strutil::chars_of("reason");
            let mut dec_count: usize = 0;
            let mut rea_count: usize = 0;
            let mut dec_idx: Option<usize> = None;
            let mut rea_idx: Option<usize> = None;
            let mut i: usize = 0;
            while i < ps.len()
                invariant
                    i <= ps.len(),
                    msv == ps.deep_view(),
                    msv.len() == ps.len(),
                    forall|k: int| 0 <= k < ps.len() ==> msv[k] == #[trigger] ps@[k].deep_view(),
                    dkey@ == "decision"@,
                    rkey@ == "reason"@,
                    dec_count <= i,
                    rea_count <= i,
                    dec_idx is None <==> dec_count == 0,
                    rea_idx is None <==> rea_count == 0,
                    spec_count_key_from(msv, "decision"@, 0) == dec_count + spec_count_key_from(
                        msv,
                        "decision"@,
                        i as int,
                    ),
                    spec_count_key_from(msv, "reason"@, 0) == rea_count + spec_count_key_from(
                        msv,
                        "reason"@,
                        i as int,
                    ),
                    dec_idx is None ==> spec_first_val_from(msv, "decision"@, 0)
                        == spec_first_val_from(msv, "decision"@, i as int),
                    dec_idx matches Some(k) ==> k < i && spec_first_val_from(msv, "decision"@, 0)
                        == Some(msv[k as int].1),
                    rea_idx is None ==> spec_first_val_from(msv, "reason"@, 0)
                        == spec_first_val_from(msv, "reason"@, i as int),
                    rea_idx matches Some(k) ==> k < i && spec_first_val_from(msv, "reason"@, 0)
                        == Some(msv[k as int].1),
                decreases ps.len() - i,
            {
                assert(msv[i as int].0 =~= ps@[i as int].0@);
                if chars_eq(&ps[i].0, &dkey) {
                    dec_count = dec_count + 1;
                    if dec_idx.is_none() {
                        dec_idx = Some(i);
                    }
                }
                if chars_eq(&ps[i].0, &rkey) {
                    rea_count = rea_count + 1;
                    if rea_idx.is_none() {
                        rea_idx = Some(i);
                    }
                }
                i = i + 1;
            }
            if !(dec_count == 1 && rea_count == 1) {
                return None;
            }
            let di = match dec_idx {
                Some(k) => k,
                None => {
                    assert(false);
                    0
                },
            };
            let ri = match rea_idx {
                Some(k) => k,
                None => {
                    assert(false);
                    0
                },
            };
            assert(msv[di as int].1 == ps@[di as int].1.deep_view());
            assert(msv[ri as int].1 == ps@[ri as int].1.deep_view());
            let dval = match &ps[di].1 {
                Some(d) => {
                    assert(ps@[di as int].1.deep_view() == Some(d@)) by {
                        assert(d.deep_view() =~= d@);
                    }
                    copy_chars(d)
                },
                None => {
                    return None;
                },
            };
            match &ps[ri].1 {
                Some(rv) => {
                    assert(ps@[ri as int].1.deep_view() == Some(rv@)) by {
                        assert(rv.deep_view() =~= rv@);
                    }
                    Some((dval, copy_chars(rv)))
                },
                None => None,
            }
        },
    }
}

} // verus!
