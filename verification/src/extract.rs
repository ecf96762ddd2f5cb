//! Extraction: turning raw header and usage text into the catalog and the
//! access-path set.
//!
//! The recognized grammar is a small, fixed subset of C:
//! - struct declarations `typedef struct { ... } Name;`, whose body holds
//!   field lines `<type> <identifier>;`, with an optional `*` after the type
//!   token and an optional bracketed decimal size after the identifier;
//! - top-level variable declarations `<struct-type> <identifier> =`;
//! - field references `.pValue = &<dotted-path>[index],`, whose leading
//!   address-of markers and trailing bracketed index are stripped before the
//!   remainder is split on `.`.
//!
//! Each scanner is described by a spec function over the character sequence
//! and computed by an exec function proved equal to it. Malformed captures
//! are skipped, never added: a struct body that yields no valid field is
//! dropped entirely.

use vstd::prelude::*;
use crate::catalog::{Field, FieldView, StructDefView, StructDefinition, StructSet};
use crate::paths::{DbData, DbLink};
use crate::text::{
    digits_end, is_ident_start, matches_at, skip_ws, word_end, lemma_digits_end_bounds,
    lemma_skip_ws_bounds, lemma_word_end_bounds, exec_digits_end, exec_is_ident_start,
    exec_matches_at, exec_skip_ws, exec_substring, exec_word_end,
};

verus! {

/// The keyword opening a struct declaration.
pub open spec fn typedef_kw() -> Seq<char> {
    "typedef"@
}

/// The keyword following `typedef`.
pub open spec fn struct_kw() -> Seq<char> {
    "struct"@
}

/// The member token opening a field-reference expression.
pub open spec fn pvalue_kw() -> Seq<char> {
    ".pValue"@
}

// ---------------------------------------------------------------------------
// Field lines inside a struct body.
// ---------------------------------------------------------------------------

/// Tries to read one field line starting at `p` (which must hold an
/// identifier-start character): a type token, optionally extended by `*`,
/// then whitespace, an identifier, an optional bracketed decimal size, and a
/// terminating `;`. Yields the field and the position after the `;`.
pub open spec fn try_field_at(s: Seq<char>, p: int) -> Option<(FieldView, int)> {
    let t_end = word_end(s, p);
    let q = skip_ws(s, t_end);
    let type_end: int = if q < s.len() && s[q] == '*' {
        q + 1
    } else {
        t_end
    };
    let r = skip_ws(s, type_end);
    if r == type_end {
        None
    } else {
        let v_end = word_end(s, r);
        if v_end == r {
            None
        } else {
            let d_end = digits_end(s, v_end + 1);
            let has_arr = v_end < s.len() && s[v_end] == '[' && d_end > v_end + 1 && d_end
                < s.len() && s[d_end] == ']';
            let after: int = if has_arr {
                d_end + 1
            } else {
                v_end
            };
            if after < s.len() && s[after] == ';' {
                Some(
                    (
                        FieldView {
                            name: s.subrange(p, type_end) + (if has_arr {
                                s.subrange(v_end, d_end + 1)
                            } else {
                                Seq::empty()
                            }),
                            value: s.subrange(r, v_end),
                        },
                        after + 1,
                    ),
                )
            } else {
                None
            }
        }
    }
}

pub proof fn lemma_try_field_at_next(s: Seq<char>, p: int)
    requires
        0 <= p <= s.len(),
    ensures
        (match try_field_at(s, p) {
            Some(res) => p < res.1 <= s.len(),
            None => true,
        }),
{
    lemma_word_end_bounds(s, p);
    let t_end = word_end(s, p);
    lemma_skip_ws_bounds(s, t_end);
    let q = skip_ws(s, t_end);
    let type_end: int = if q < s.len() && s[q] == '*' {
        q + 1
    } else {
        t_end
    };
    lemma_skip_ws_bounds(s, type_end);
    let r = skip_ws(s, type_end);
    if r != type_end {
        lemma_word_end_bounds(s, r);
        let v_end = word_end(s, r);
        if v_end + 1 <= s.len() {
            lemma_digits_end_bounds(s, v_end + 1);
        }
    }
}

/// All fields successfully read from `s` at or after `i`, in order. A
/// position that starts no valid field line is skipped by one character.
pub open spec fn scan_fields(s: Seq<char>, i: int) -> Seq<FieldView>
    decreases s.len() - i,
{
    if !(0 <= i < s.len()) {
        Seq::empty()
    } else if !is_ident_start(s[i]) {
        scan_fields(s, i + 1)
    } else {
        match try_field_at(s, i) {
            Some(res) => {
                proof {
                    lemma_try_field_at_next(s, i);
                }
                seq![res.0] + scan_fields(s, res.1)
            },
            None => scan_fields(s, i + 1),
        }
    }
}

/// Reads one field line starting at `p`, as `try_field_at` describes.
fn exec_try_field_at(s: &str, p: usize) -> (r: Option<(Field, usize)>)
    requires
        p < s@.len(),
        is_ident_start(s@[p as int]),
    ensures
        (match r {
            Some(res) => try_field_at(s@, p as int) == Some((res.0@, res.1 as int)) && p < res.1
                <= s@.len(),
            None => try_field_at(s@, p as int) is None,
        }),
{
    let n = s.unicode_len();
    let t_end = exec_word_end(s, p);
    let q = exec_skip_ws(s, t_end);
    let type_end = if q < n && s.get_char(q) == '*' {
        q + 1
    } else {
        t_end
    };
    let r = exec_skip_ws(s, type_end);
    if r == type_end {
        return None;
    }
    let v_end = exec_word_end(s, r);
    if v_end == r {
        return None;
    }
    let mut has_arr = false;
    let mut d_end = v_end;
    if v_end < n && s.get_char(v_end) == '[' {
        d_end = exec_digits_end(s, v_end + 1);
        has_arr = d_end > v_end + 1 && d_end < n && s.get_char(d_end) == ']';
    }
    let after = if has_arr {
        d_end + 1
    } else {
        v_end
    };
    if after < n && s.get_char(after) == ';' {
        let tname = exec_substring(s, p, type_end);
        let value = exec_substring(s, r, v_end);
        let f = if has_arr {
            let arr = exec_substring(s, v_end, d_end + 1);
            Field::new(tname, value, Some(arr.as_str()))
        } else {
            proof {
                assert(s@.subrange(p as int, type_end as int) + Seq::<char>::empty() =~= s@.subrange(
                    p as int,
                    type_end as int,
                ));
            }
            Field::new(tname, value, None)
        };
        Some((f, after + 1))
    } else {
        None
    }
}

/// Appends to `def` every field that `scan_fields` reads from `s` at or
/// after `i`, in order.
fn exec_scan_fields(s: &str, i: usize, def: &mut StructDefinition)
    requires
        i <= s@.len(),
    ensures
        final (def)@.name == old(def)@.name,
        final (def)@.fields == old(def)@.fields + scan_fields(s@, i as int),
    decreases s@.len() - i,
{
    let n = s.unicode_len();
    if i >= n {
        proof {
            assert(old(def)@.fields + scan_fields(s@, i as int) =~= old(def)@.fields);
        }
        return ;
    }
    if !exec_is_ident_start(s.get_char(i)) {
        exec_scan_fields(s, i + 1, def);
        return ;
    }
    match exec_try_field_at(s, i) {
        Some((f, next)) => {
            let ghost before = def@.fields;
            def.add_field(f);
            exec_scan_fields(s, next, def);
            proof {
                assert(before.push(f@) + scan_fields(s@, next as int) =~= before + (seq![f@]
                    + scan_fields(s@, next as int)));
            }
        },
        None => {
            exec_scan_fields(s, i + 1, def);
        },
    }
}

// ---------------------------------------------------------------------------
// Struct declarations in header text.
// ---------------------------------------------------------------------------

/// Finds, at or after `j`, the first `}` that is followed by optional
/// whitespace, a non-empty word (the struct's name), and `;`. Yields the
/// positions of the `}` and of the name's bounds.
pub open spec fn find_block_end(s: Seq<char>, j: int) -> Option<(int, int, int)>
    decreases s.len() - j,
{
    if !(0 <= j < s.len()) {
        None
    } else if s[j] == '}' {
        let nm = skip_ws(s, j + 1);
        let w = word_end(s, nm);
        if w > nm && w < s.len() && s[w] == ';' {
            Some((j, nm, w))
        } else {
            find_block_end(s, j + 1)
        }
    } else {
        find_block_end(s, j + 1)
    }
}

pub proof fn lemma_find_block_end_props(s: Seq<char>, j: int)
    requires
        0 <= j <= s.len(),
    ensures
        (match find_block_end(s, j) {
            Some(res) => j <= res.0 && res.0 < res.1 && res.1 < res.2 && res.2 < s.len(),
            None => true,
        }),
    decreases s.len() - j,
{
    if j < s.len() {
        if s[j] == '}' {
            lemma_skip_ws_bounds(s, j + 1);
            let nm = skip_ws(s, j + 1);
            lemma_word_end_bounds(s, nm);
            let w = word_end(s, nm);
            if !(w > nm && w < s.len() && s[w] == ';') {
                lemma_find_block_end_props(s, j + 1);
            }
        } else {
            lemma_find_block_end_props(s, j + 1);
        }
    }
}

/// Computes `find_block_end`.
fn exec_find_block_end(s: &str, j: usize) -> (r: Option<(usize, usize, usize)>)
    requires
        j <= s@.len(),
    ensures
        (match r {
            Some(res) => find_block_end(s@, j as int) == Some(
                (res.0 as int, res.1 as int, res.2 as int),
            ) && j <= res.0 && res.0 < res.1 && res.1 < res.2 && res.2 < s@.len(),
            None => find_block_end(s@, j as int) is None,
        }),
    decreases s@.len() - j,
{
    let n = s.unicode_len();
    if j >= n {
        return None;
    }
    if s.get_char(j) == '}' {
        let nm = exec_skip_ws(s, j + 1);
        let w = exec_word_end(s, nm);
        if w > nm && w < n && s.get_char(w) == ';' {
            Some((j, nm, w))
        } else {
            exec_find_block_end(s, j + 1)
        }
    } else {
        exec_find_block_end(s, j + 1)
    }
}

/// Tries to read one struct declaration starting at `i` (which must open the
/// `typedef` keyword): whitespace, `struct`, optional whitespace, `{`, a
/// body, and a closing `}` followed by the struct's name and `;`. The body's
/// fields are read by `scan_fields`; the declaration's name and fields are
/// yielded with the position after the `;`.
pub open spec fn try_struct_at(s: Seq<char>, i: int) -> Option<(StructDefView, int)> {
    let k0 = i + typedef_kw().len();
    let k = skip_ws(s, k0);
    if k == k0 {
        None
    } else if matches_at(s, k, struct_kw()) {
        let m0 = skip_ws(s, k + struct_kw().len());
        if m0 < s.len() && s[m0] == '{' {
            match find_block_end(s, m0 + 1) {
                Some(res) => Some(
                    (
                        StructDefView {
                            name: s.subrange(res.1, res.2),
                            fields: scan_fields(s.subrange(m0 + 1, res.0), 0),
                        },
                        res.2 + 1,
                    ),
                ),
                None => None,
            }
        } else {
            None
        }
    } else {
        None
    }
}

pub proof fn lemma_try_struct_at_next(s: Seq<char>, i: int)
    requires
        matches_at(s, i, typedef_kw()),
    ensures
        (match try_struct_at(s, i) {
            Some(res) => i < res.1 <= s.len(),
            None => true,
        }),
{
    let k0 = i + typedef_kw().len();
    lemma_skip_ws_bounds(s, k0);
    let k = skip_ws(s, k0);
    if k != k0 && matches_at(s, k, struct_kw()) {
        lemma_skip_ws_bounds(s, k + struct_kw().len());
        let m0 = skip_ws(s, k + struct_kw().len());
        if m0 < s.len() && s[m0] == '{' {
            lemma_find_block_end_props(s, m0 + 1);
        }
    }
}

/// All struct definitions successfully read from `s` at or after `i`, in
/// order. A declaration whose body yields no valid field is dropped; a
/// position that opens no declaration is skipped by one character.
pub open spec fn scan_structs(s: Seq<char>, i: int) -> Seq<StructDefView>
    decreases s.len() - i,
{
    if !(0 <= i < s.len()) {
        Seq::empty()
    } else if matches_at(s, i, typedef_kw()) {
        match try_struct_at(s, i) {
            Some(res) => {
                proof {
                    lemma_try_struct_at_next(s, i);
                }
                if res.0.fields.len() > 0 {
                    seq![res.0] + scan_structs(s, res.1)
                } else {
                    scan_structs(s, res.1)
                }
            },
            None => scan_structs(s, i + 1),
        }
    } else {
        scan_structs(s, i + 1)
    }
}

/// Reads one struct declaration starting at `i`, as `try_struct_at`
/// describes.
fn exec_try_struct_at(s: &str, i: usize) -> (r: Option<(StructDefinition, usize)>)
    requires
        i <= s@.len(),
        matches_at(s@, i as int, typedef_kw()),
    ensures
        (match r {
            Some(res) => try_struct_at(s@, i as int) == Some((res.0@, res.1 as int)) && i < res.1
                <= s@.len(),
            None => try_struct_at(s@, i as int) is None,
        }),
{
    proof {
        lemma_try_struct_at_next(s@, i as int);
    }
    let n = s.unicode_len();
    let k0 = i + "typedef".unicode_len();
    let k = exec_skip_ws(s, k0);
    if k == k0 {
        return None;
    }
    if !exec_matches_at(s, k, "struct") {
        return None;
    }
    let m0 = exec_skip_ws(s, k + "struct".unicode_len());
    if !(m0 < n && s.get_char(m0) == '{') {
        return None;
    }
    match exec_find_block_end(s, m0 + 1) {
        Some((m, nm, w)) => {
            let body: &str = s.substring_char(m0 + 1, m);
            let name = exec_substring(s, nm, w);
            let mut def = StructDefinition::empty(name);
            exec_scan_fields(body, 0, &mut def);
            proof {
                assert(Seq::<FieldView>::empty() + scan_fields(body@, 0) =~= scan_fields(
                    body@,
                    0,
                ));
            }
            Some((def, w + 1))
        },
        None => None,
    }
}

/// Appends to `set` every struct definition that `scan_structs` reads from
/// `s` at or after `i`, in order; top-level variables are untouched.
fn exec_scan_structs(s: &str, i: usize, set: &mut StructSet)
    requires
        i <= s@.len(),
    ensures
        final (set)@.definitions == old(set)@.definitions + scan_structs(s@, i as int),
        final (set)@.vars == old(set)@.vars,
    decreases s@.len() - i,
{
    let n = s.unicode_len();
    if i >= n {
        proof {
            assert(old(set)@.definitions + scan_structs(s@, i as int) =~= old(set)@.definitions);
        }
        return ;
    }
    if !exec_matches_at(s, i, "typedef") {
        exec_scan_structs(s, i + 1, set);
        return ;
    }
    match exec_try_struct_at(s, i) {
        Some((def, next)) => {
            let ghost before = set@.definitions;
            if def.fields().len() > 0 {
                let ghost dv = def@;
                set.add_definition(def);
                exec_scan_structs(s, next, set);
                proof {
                    assert(before.push(dv) + scan_structs(s@, next as int) =~= before + (seq![dv]
                        + scan_structs(s@, next as int)));
                }
            } else {
                exec_scan_structs(s, next, set);
            }
        },
        None => {
            exec_scan_structs(s, i + 1, set);
        },
    }
}

/// No struct definition that the header scan yields has an empty field list:
/// a struct body yielding zero valid fields never appears in the catalog.
pub proof fn lemma_scanned_structs_never_empty(s: Seq<char>, i: int)
    requires
        0 <= i,
    ensures
        forall|k: int|
            0 <= k < scan_structs(s, i).len() ==> #[trigger] scan_structs(s, i)[k].fields.len()
                > 0,
    decreases s.len() - i,
{
    let result = scan_structs(s, i);
    if 0 <= i < s.len() {
        if matches_at(s, i, typedef_kw()) {
            match try_struct_at(s, i) {
                Some(res) => {
                    lemma_try_struct_at_next(s, i);
                    lemma_scanned_structs_never_empty(s, res.1);
                    let rest = scan_structs(s, res.1);
                    if res.0.fields.len() > 0 {
                        assert(result == seq![res.0] + rest);
                        assert forall|k: int| 0 <= k < result.len() implies #[trigger] result[k].fields.len() > 0 by {
                            if k > 0 {
                                assert(result[k] == rest[k - 1]);
                            }
                        }
                    } else {
                        assert(result == rest);
                        assert forall|k: int| 0 <= k < result.len() implies #[trigger] result[k].fields.len() > 0 by {
                            assert(result[k] == rest[k]);
                        }
                    }
                },
                None => {
                    lemma_scanned_structs_never_empty(s, i + 1);
                    let rest = scan_structs(s, i + 1);
                    assert(result == rest);
                    assert forall|k: int| 0 <= k < result.len() implies #[trigger] result[k].fields.len() > 0 by {
                        assert(result[k] == rest[k]);
                    }
                },
            }
        } else {
            lemma_scanned_structs_never_empty(s, i + 1);
            let rest = scan_structs(s, i + 1);
            assert(result == rest);
            assert forall|k: int| 0 <= k < result.len() implies #[trigger] result[k].fields.len() > 0 by {
                assert(result[k] == rest[k]);
            }
        }
    }
}

// ---------------------------------------------------------------------------
// Top-level variable declarations in usage text.
// ---------------------------------------------------------------------------

/// Tries to read one variable declaration starting at `p` (which must hold
/// an identifier-start character): a struct-type token, whitespace, a
/// variable identifier, optional whitespace, and `=`. The pair is stored in
/// field shape — the struct-type token as `name`, the variable identifier as
/// `value` — with the position after the `=`.
pub open spec fn try_var_at(s: Seq<char>, p: int) -> Option<(FieldView, int)> {
    let t_end = word_end(s, p);
    let q = skip_ws(s, t_end);
    if q == t_end {
        None
    } else {
        let v_end = word_end(s, q);
        if v_end == q {
            None
        } else {
            let e = skip_ws(s, v_end);
            if e < s.len() && s[e] == '=' {
                Some(
                    (
                        FieldView { name: s.subrange(p, t_end), value: s.subrange(q, v_end) },
                        e + 1,
                    ),
                )
            } else {
                None
            }
        }
    }
}

pub proof fn lemma_try_var_at_next(s: Seq<char>, p: int)
    requires
        0 <= p <= s.len(),
    ensures
        (match try_var_at(s, p) {
            Some(res) => p < res.1 <= s.len(),
            None => true,
        }),
{
    lemma_word_end_bounds(s, p);
    let t_end = word_end(s, p);
    lemma_skip_ws_bounds(s, t_end);
    let q = skip_ws(s, t_end);
    if q != t_end {
        lemma_word_end_bounds(s, q);
        let v_end = word_end(s, q);
        lemma_skip_ws_bounds(s, v_end);
    }
}

/// All variable declarations successfully read from `s` at or after `i`, in
/// order of appearance; duplicates are all retained.
pub open spec fn scan_vars(s: Seq<char>, i: int) -> Seq<FieldView>
    decreases s.len() - i,
{
    if !(0 <= i < s.len()) {
        Seq::empty()
    } else if !is_ident_start(s[i]) {
        scan_vars(s, i + 1)
    } else {
        match try_var_at(s, i) {
            Some(res) => {
                proof {
                    lemma_try_var_at_next(s, i);
                }
                seq![res.0] + scan_vars(s, res.1)
            },
            None => scan_vars(s, i + 1),
        }
    }
}

/// Reads one variable declaration starting at `p`, as `try_var_at`
/// describes.
fn exec_try_var_at(s: &str, p: usize) -> (r: Option<(Field, usize)>)
    requires
        p < s@.len(),
        is_ident_start(s@[p as int]),
    ensures
        (match r {
            Some(res) => try_var_at(s@, p as int) == Some((res.0@, res.1 as int)) && p < res.1
                <= s@.len(),
            None => try_var_at(s@, p as int) is None,
        }),
{
    let n = s.unicode_len();
    let t_end = exec_word_end(s, p);
    let q = exec_skip_ws(s, t_end);
    if q == t_end {
        return None;
    }
    let v_end = exec_word_end(s, q);
    if v_end == q {
        return None;
    }
    let e = exec_skip_ws(s, v_end);
    if e < n && s.get_char(e) == '=' {
        let tname = exec_substring(s, p, t_end);
        let value = exec_substring(s, q, v_end);
        Some((Field::new(tname, value, None), e + 1))
    } else {
        None
    }
}

/// Appends to `set` every variable declaration that `scan_vars` reads from
/// `s` at or after `i`, in order; struct definitions are untouched.
fn exec_scan_vars(s: &str, i: usize, set: &mut StructSet)
    requires
        i <= s@.len(),
    ensures
        final (set)@.vars == old(set)@.vars + scan_vars(s@, i as int),
        final (set)@.definitions == old(set)@.definitions,
    decreases s@.len() - i,
{
    let n = s.unicode_len();
    if i >= n {
        proof {
            assert(old(set)@.vars + scan_vars(s@, i as int) =~= old(set)@.vars);
        }
        return ;
    }
    if !exec_is_ident_start(s.get_char(i)) {
        exec_scan_vars(s, i + 1, set);
        return ;
    }
    match exec_try_var_at(s, i) {
        Some((f, next)) => {
            let ghost before = set@.vars;
            let ghost fv = f@;
            set.add_field(f);
            exec_scan_vars(s, next, set);
            proof {
                assert(before.push(fv) + scan_vars(s@, next as int) =~= before + (seq![fv]
                    + scan_vars(s@, next as int)));
            }
        },
        None => {
            exec_scan_vars(s, i + 1, set);
        },
    }
}

// ---------------------------------------------------------------------------
// Field-reference expressions in usage text.
// ---------------------------------------------------------------------------

/// First index at or after `j` that does not hold an address-of marker `&`
/// (or the length).
pub open spec fn skip_amps(s: Seq<char>, j: int) -> int
    decreases s.len() - j,
{
    if 0 <= j < s.len() && s[j] == '&' {
        skip_amps(s, j + 1)
    } else {
        j
    }
}

pub proof fn lemma_skip_amps_bounds(s: Seq<char>, j: int)
    requires
        0 <= j <= s.len(),
    ensures
        j <= skip_amps(s, j) <= s.len(),
    decreases s.len() - j,
{
    if j < s.len() && s[j] == '&' {
        lemma_skip_amps_bounds(s, j + 1);
    }
}

/// The first `,` at or after `j` on the same line: the search fails if a
/// newline comes first (the captured expression may not span lines).
pub open spec fn find_comma_line(s: Seq<char>, j: int) -> Option<int>
    decreases s.len() - j,
{
    if !(0 <= j < s.len()) {
        None
    } else if s[j] == ',' {
        Some(j)
    } else if s[j] == '\n' {
        None
    } else {
        find_comma_line(s, j + 1)
    }
}

pub proof fn lemma_find_comma_line_props(s: Seq<char>, j: int)
    requires
        0 <= j <= s.len(),
    ensures
        (match find_comma_line(s, j) {
            Some(c) => j <= c < s.len(),
            None => true,
        }),
    decreases s.len() - j,
{
    if j < s.len() && s[j] != ',' && s[j] != '\n' {
        lemma_find_comma_line_props(s, j + 1);
    }
}

/// First index at or after `i` that holds a `.` (or the length).
pub open spec fn dot_end(t: Seq<char>, i: int) -> int
    decreases t.len() - i,
{
    if 0 <= i < t.len() && t[i] != '.' {
        dot_end(t, i + 1)
    } else {
        i
    }
}

pub proof fn lemma_dot_end_bounds(t: Seq<char>, i: int)
    requires
        0 <= i <= t.len(),
    ensures
        i <= dot_end(t, i) <= t.len(),
    decreases t.len() - i,
{
    if i < t.len() && t[i] != '.' {
        lemma_dot_end_bounds(t, i + 1);
    }
}

/// First index at or after `i` that holds a `[` (or the length).
pub open spec fn lbracket_end(t: Seq<char>, i: int) -> int
    decreases t.len() - i,
{
    if 0 <= i < t.len() && t[i] != '[' {
        lbracket_end(t, i + 1)
    } else {
        i
    }
}

pub proof fn lemma_lbracket_end_bounds(t: Seq<char>, i: int)
    requires
        0 <= i <= t.len(),
    ensures
        i <= lbracket_end(t, i) <= t.len(),
    decreases t.len() - i,
{
    if i < t.len() && t[i] != '[' {
        lemma_lbracket_end_bounds(t, i + 1);
    }
}

/// `t` split on `.` from position `i` on: the chunks between the dots, in
/// order, empty chunks included. Splitting an empty remainder yields one
/// empty segment, so the result is never empty.
pub open spec fn split_dots_from(t: Seq<char>, i: int) -> Seq<Seq<char>>
    decreases t.len() - i,
{
    if !(0 <= i <= t.len()) {
        Seq::empty()
    } else {
        let k = dot_end(t, i);
        if k >= t.len() {
            seq![t.subrange(i, t.len() as int)]
        } else {
            proof {
                lemma_dot_end_bounds(t, i);
            }
            seq![t.subrange(i, k)] + split_dots_from(t, k + 1)
        }
    }
}

/// A split yields one segment per dot plus one; in particular at least one.
pub proof fn lemma_split_dots_from_len(t: Seq<char>, i: int)
    requires
        0 <= i <= t.len(),
    ensures
        split_dots_from(t, i).len() > 0,
    decreases t.len() - i,
{
    lemma_dot_end_bounds(t, i);
}

/// The capture with a trailing bracketed index removed: if `t` ends with `]`
/// and holds a `[`, everything from the first `[` on is dropped.
pub open spec fn strip_index(t: Seq<char>) -> Seq<char> {
    if t.len() > 0 && t[t.len() - 1] == ']' && lbracket_end(t, 0) < t.len() {
        t.subrange(0, lbracket_end(t, 0))
    } else {
        t
    }
}

/// Tries to read one field-reference expression starting at `i` (which must
/// open the `.pValue` token): optional whitespace, `=`, optional whitespace,
/// any leading `&` markers, then a capture running to the first `,` on the
/// same line. A trailing bracketed index is stripped and the remainder is
/// split on `.`; the segments are yielded with the position after the `,`.
pub open spec fn try_link_at(s: Seq<char>, i: int) -> Option<(Seq<Seq<char>>, int)> {
    let q = skip_ws(s, i + pvalue_kw().len());
    if q < s.len() && s[q] == '=' {
        let r = skip_ws(s, q + 1);
        let r2 = skip_amps(s, r);
        match find_comma_line(s, r2) {
            Some(c) => Some((split_dots_from(strip_index(s.subrange(r2, c)), 0), c + 1)),
            None => None,
        }
    } else {
        None
    }
}

pub proof fn lemma_try_link_at_next(s: Seq<char>, i: int)
    requires
        matches_at(s, i, pvalue_kw()),
    ensures
        (match try_link_at(s, i) {
            Some(res) => i < res.1 <= s.len() && res.0.len() > 0,
            None => true,
        }),
{
    lemma_skip_ws_bounds(s, i + pvalue_kw().len());
    let q = skip_ws(s, i + pvalue_kw().len());
    if q < s.len() && s[q] == '=' {
        lemma_skip_ws_bounds(s, q + 1);
        let r = skip_ws(s, q + 1);
        lemma_skip_amps_bounds(s, r);
        let r2 = skip_amps(s, r);
        lemma_find_comma_line_props(s, r2);
        match find_comma_line(s, r2) {
            Some(c) => {
                let t = s.subrange(r2, c);
                lemma_lbracket_end_bounds(t, 0);
                lemma_split_dots_from_len(strip_index(t), 0);
            },
            None => {},
        }
    }
}

/// All access paths successfully read from `s` at or after `i`, in order of
/// appearance.
pub open spec fn scan_links(s: Seq<char>, i: int) -> Seq<Seq<Seq<char>>>
    decreases s.len() - i,
{
    if !(0 <= i < s.len()) {
        Seq::empty()
    } else if matches_at(s, i, pvalue_kw()) {
        match try_link_at(s, i) {
            Some(res) => {
                proof {
                    lemma_try_link_at_next(s, i);
                }
                seq![res.0] + scan_links(s, res.1)
            },
            None => scan_links(s, i + 1),
        }
    } else {
        scan_links(s, i + 1)
    }
}

/// Every path the usage scan yields has at least one segment.
pub proof fn lemma_scanned_links_never_empty(s: Seq<char>, i: int)
    requires
        0 <= i,
    ensures
        forall|k: int|
            0 <= k < scan_links(s, i).len() ==> #[trigger] scan_links(s, i)[k].len() > 0,
    decreases s.len() - i,
{
    let result = scan_links(s, i);
    if 0 <= i < s.len() {
        if matches_at(s, i, pvalue_kw()) {
            match try_link_at(s, i) {
                Some(res) => {
                    lemma_try_link_at_next(s, i);
                    lemma_scanned_links_never_empty(s, res.1);
                    let rest = scan_links(s, res.1);
                    assert(result == seq![res.0] + rest);
                    assert forall|k: int| 0 <= k < result.len() implies #[trigger] result[k].len()
                        > 0 by {
                        if k > 0 {
                            assert(result[k] == rest[k - 1]);
                        }
                    }
                },
                None => {
                    lemma_scanned_links_never_empty(s, i + 1);
                    let rest = scan_links(s, i + 1);
                    assert(result == rest);
                    assert forall|k: int| 0 <= k < result.len() implies #[trigger] result[k].len()
                        > 0 by {
                        assert(result[k] == rest[k]);
                    }
                },
            }
        } else {
            lemma_scanned_links_never_empty(s, i + 1);
            let rest = scan_links(s, i + 1);
            assert(result == rest);
            assert forall|k: int| 0 <= k < result.len() implies #[trigger] result[k].len() > 0 by {
                assert(result[k] == rest[k]);
            }
        }
    }
}

/// Computes `skip_amps`.
fn exec_skip_amps(s: &str, j: usize) -> (r: usize)
    requires
        j <= s@.len(),
    ensures
        r == skip_amps(s@, j as int),
        j <= r <= s@.len(),
    decreases s@.len() - j,
{
    let n = s.unicode_len();
    if j < n && s.get_char(j) == '&' {
        exec_skip_amps(s, j + 1)
    } else {
        j
    }
}

/// Computes `find_comma_line`.
fn exec_find_comma_line(s: &str, j: usize) -> (r: Option<usize>)
    requires
        j <= s@.len(),
    ensures
        (match r {
            Some(c) => find_comma_line(s@, j as int) == Some(c as int) && j <= c < s@.len(),
            None => find_comma_line(s@, j as int) is None,
        }),
    decreases s@.len() - j,
{
    let n = s.unicode_len();
    if j >= n {
        None
    } else if s.get_char(j) == ',' {
        Some(j)
    } else if s.get_char(j) == '\n' {
        None
    } else {
        exec_find_comma_line(s, j + 1)
    }
}

/// Computes `dot_end`.
fn exec_dot_end(t: &str, i: usize) -> (r: usize)
    requires
        i <= t@.len(),
    ensures
        r == dot_end(t@, i as int),
        i <= r <= t@.len(),
    decreases t@.len() - i,
{
    let n = t.unicode_len();
    if i < n && t.get_char(i) != '.' {
        exec_dot_end(t, i + 1)
    } else {
        i
    }
}

/// Computes `lbracket_end`.
fn exec_lbracket_end(t: &str, i: usize) -> (r: usize)
    requires
        i <= t@.len(),
    ensures
        r == lbracket_end(t@, i as int),
        i <= r <= t@.len(),
    decreases t@.len() - i,
{
    let n = t.unicode_len();
    if i < n && t.get_char(i) != '[' {
        exec_lbracket_end(t, i + 1)
    } else {
        i
    }
}

/// Appends to `link` every segment of `t` split on `.` from `i` on.
fn exec_split_dots(t: &str, i: usize, link: &mut DbLink)
    requires
        i <= t@.len(),
    ensures
        final (link)@ == old(link)@ + split_dots_from(t@, i as int),
    decreases t@.len() - i,
{
    let n = t.unicode_len();
    let k = exec_dot_end(t, i);
    if k >= n {
        let piece = exec_substring(t, i, n);
        let ghost before = link@;
        let ghost pv = piece@;
        link.add_part(piece);
        proof {
            assert(before.push(pv) =~= before + seq![t@.subrange(i as int, t@.len() as int)]);
        }
    } else {
        let piece = exec_substring(t, i, k);
        let ghost before = link@;
        let ghost pv = piece@;
        link.add_part(piece);
        exec_split_dots(t, k + 1, link);
        proof {
            assert(before.push(pv) + split_dots_from(t@, k + 1 as int) =~= before + (seq![
                t@.subrange(i as int, k as int),
            ] + split_dots_from(t@, k + 1 as int)));
        }
    }
}

/// Reads one field-reference expression starting at `i`, as `try_link_at`
/// describes.
fn exec_try_link_at(s: &str, i: usize) -> (r: Option<(DbLink, usize)>)
    requires
        i <= s@.len(),
        matches_at(s@, i as int, pvalue_kw()),
    ensures
        (match r {
            Some(res) => try_link_at(s@, i as int) == Some((res.0@, res.1 as int)) && i < res.1
                <= s@.len(),
            None => try_link_at(s@, i as int) is None,
        }),
{
    proof {
        lemma_try_link_at_next(s@, i as int);
    }
    let n = s.unicode_len();
    let q = exec_skip_ws(s, i + ".pValue".unicode_len());
    if !(q < n && s.get_char(q) == '=') {
        return None;
    }
    let r = exec_skip_ws(s, q + 1);
    let r2 = exec_skip_amps(s, r);
    match exec_find_comma_line(s, r2) {
        Some(c) => {
            let t: &str = s.substring_char(r2, c);
            let tn = t.unicode_len();
            let b = exec_lbracket_end(t, 0);
            let cap_end = if tn > 0 && t.get_char(tn - 1) == ']' && b < tn {
                b
            } else {
                tn
            };
            let cap = exec_substring(t, 0, cap_end);
            proof {
                assert(t@.subrange(0, t@.len() as int) =~= t@);
                assert(cap@ == strip_index(t@));
            }
            let mut link = DbLink::new();
            exec_split_dots(cap.as_str(), 0, &mut link);
            proof {
                assert(Seq::<Seq<char>>::empty() + split_dots_from(cap@, 0) =~= split_dots_from(
                    cap@,
                    0,
                ));
            }
            Some((link, c + 1))
        },
        None => None,
    }
}

/// Appends to `data` every access path that `scan_links` reads from `s` at
/// or after `i`, in order.
fn exec_scan_links(s: &str, i: usize, data: &mut DbData)
    requires
        i <= s@.len(),
    ensures
        final (data)@ == old(data)@ + scan_links(s@, i as int),
    decreases s@.len() - i,
{
    let n = s.unicode_len();
    if i >= n {
        proof {
            assert(old(data)@ + scan_links(s@, i as int) =~= old(data)@);
        }
        return ;
    }
    if !exec_matches_at(s, i, ".pValue") {
        exec_scan_links(s, i + 1, data);
        return ;
    }
    match exec_try_link_at(s, i) {
        Some((link, next)) => {
            let ghost before = data@;
            let ghost lv = link@;
            data.add_link(link);
            exec_scan_links(s, next, data);
            proof {
                assert(before.push(lv) + scan_links(s@, next as int) =~= before + (seq![lv]
                    + scan_links(s@, next as int)));
            }
        },
        None => {
            exec_scan_links(s, i + 1, data);
        },
    }
}

impl DbData {
    /// Scans `text` for field-reference expressions and appends one access
    /// path per recognized expression, in order of appearance.
    pub fn analyze_text(self, text: &str) -> (r: DbData)
        ensures
            r@ == self@ + scan_links(text@, 0),
    {
        let mut data = self;
        exec_scan_links(text, 0, &mut data);
        data
    }
}

impl StructSet {
    /// Scans `struct_text` for `typedef struct { ... } Name;` declarations
    /// and `usage_text` for top-level variable declarations, and appends
    /// everything found, in order of appearance, to this catalog.
    pub fn analyze_text(self, struct_text: &str, usage_text: &str) -> (r: StructSet)
        ensures
            r@.definitions == self@.definitions + scan_structs(struct_text@, 0),
            r@.vars == self@.vars + scan_vars(usage_text@, 0),
    {
        let mut set = self;
        exec_scan_structs(struct_text, 0, &mut set);
        exec_scan_vars(usage_text, 0, &mut set);
        set
    }
}

} // verus!
