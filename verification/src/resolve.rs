//! The path resolver: walks each access path against the catalog and yields
//! the terminal type name, plus the descriptor records handed to a code
//! generator.

use vstd::prelude::*;
use crate::catalog::{find_by_value, lookup_in_def, StructSet, StructSetView};
use crate::paths::DbData;
use crate::text::strings_view;

verus! {

/// The sentinel type name used when a path's first segment names no declared
/// instance.
pub open spec fn unknown_name() -> Seq<char> {
    "Unknown"@
}

/// One resolution step: inside the definition named `cur`, look the segment
/// up by its identifier and step to that field's type name. If either the
/// definition or the field is missing, the current name is left unchanged.
pub open spec fn resolve_step(cat: StructSetView, cur: Seq<char>, seg: Seq<char>) -> Seq<char> {
    match lookup_in_def(cat.definitions, cur, seg) {
        Some(n) => n,
        None => cur,
    }
}

/// Folds `resolve_step` over the remaining segments of a path.
pub open spec fn resolve_from(cat: StructSetView, cur: Seq<char>, segs: Seq<Seq<char>>) -> Seq<
    char,
>
    decreases segs.len(),
{
    if segs.len() == 0 {
        cur
    } else {
        resolve_from(cat, resolve_step(cat, cur, segs[0]), segs.drop_first())
    }
}

/// The terminal type of one access path: the first segment is looked up
/// among the top-level variables (falling back to the sentinel), and every
/// later segment steps through the struct definitions.
pub open spec fn resolve_path(cat: StructSetView, parts: Seq<Seq<char>>) -> Seq<char>
    recommends
        parts.len() > 0,
{
    let start = match find_by_value(cat.vars, parts[0]) {
        Some(f) => f.name,
        None => unknown_name(),
    };
    resolve_from(cat, start, parts.drop_first())
}

/// The terminal types of all paths, in appearance order.
pub open spec fn resolve_all(cat: StructSetView, links: Seq<Seq<Seq<char>>>) -> Seq<Seq<char>> {
    Seq::new(links.len(), |i: int| resolve_path(cat, links[i]))
}

/// Walks every access path of `db_data` against `struct_set` and returns the
/// terminal type name of each, one per path, in appearance order.
pub fn resolve_types(struct_set: StructSet, db_data: DbData) -> (r: Vec<String>)
    requires
        forall|k: int| 0 <= k < db_data@.len() ==> db_data@[k].len() > 0,
    ensures
        r@.len() == db_data@.len(),
        strings_view(r@) == resolve_all(struct_set@, db_data@),
{
    let ghost cat = struct_set@;
    let ghost all = db_data@;
    let links = db_data.links();
    let mut out: Vec<String> = Vec::new();
    let mut li: usize = 0;
    while li < links.len()
        invariant
            0 <= li <= links.len(),
            cat == struct_set@,
            all == db_data@,
            crate::paths::links_view(links@) == all,
            links@.len() == all.len(),
            out@.len() == li,
            forall|j: int| 0 <= j < li ==> out@[j]@ == resolve_path(cat, all[j]),
            forall|k: int| 0 <= k < all.len() ==> all[k].len() > 0,
        decreases links.len() - li,
    {
        let link = &links[li];
        let ghost segs = all[li as int];
        let parts = link.parts();
        proof {
            assert(link@ == segs);
            assert(strings_view(parts@).len() == segs.len());
        }
        let mut cur: String = match struct_set.find_field_by_value(parts[0].as_str()) {
            Some(f) => f.get_name().to_owned(),
            None => "Unknown".to_owned(),
        };
        proof {
            assert(segs[0] == crate::text::strings_view(parts@)[0]);
            assert(resolve_from(cat, cur@, segs.drop_first().skip(0)) == resolve_from(
                cat,
                cur@,
                segs.drop_first(),
            )) by {
                assert(segs.drop_first().skip(0) =~= segs.drop_first());
            }
        }
        let ghost rest = segs.drop_first();
        let mut pi: usize = 1;
        while pi < parts.len()
            invariant
                1 <= pi <= parts.len(),
                cat == struct_set@,
                strings_view(parts@) == segs,
                parts@.len() == segs.len(),
                rest == segs.drop_first(),
                rest.len() == segs.len() - 1,
                resolve_path(cat, segs) == resolve_from(cat, cur@, rest.skip(pi - 1)),
            decreases parts.len() - pi,
        {
            let ghost cur0 = cur@;
            let ghost tail = rest.skip(pi - 1);
            proof {
                assert(tail.len() > 0);
                assert(tail[0] == rest[pi - 1]);
                assert(rest[pi - 1] == segs[pi as int]);
                assert(segs[pi as int] == parts@[pi as int]@);
                assert(tail.drop_first() =~= rest.skip(pi as int));
            }
            match struct_set.find_field_name_in_definition(cur.as_str(), parts[pi].as_str()) {
                Some(n) => {
                    let next = n.to_owned();
                    proof {
                        assert(resolve_step(cat, cur0, tail[0]) == next@);
                    }
                    cur = next;
                },
                None => {
                    proof {
                        assert(resolve_step(cat, cur0, tail[0]) == cur0);
                    }
                },
            }
            pi += 1;
        }
        proof {
            assert(rest.skip(pi - 1) =~= Seq::<Seq<char>>::empty());
            assert(resolve_path(cat, segs) == cur@);
        }
        out.push(cur);
        li += 1;
    }
    proof {
        assert(strings_view(out@) =~= resolve_all(cat, all));
    }
    out
}

/// Resolution is order-preserving and total: the output has exactly one
/// terminal type per input path, at the same position, whatever the paths
/// hold — an unresolvable path yields a name, never an omission.
pub proof fn lemma_resolution_order_preserving(cat: StructSetView, links: Seq<Seq<Seq<char>>>)
    ensures
        resolve_all(cat, links).len() == links.len(),
        forall|i: int|
            0 <= i < links.len() ==> #[trigger] resolve_all(cat, links)[i] == resolve_path(
                cat,
                links[i],
            ),
{
}

/// A path whose first segment names no declared instance resolves to the
/// sentinel `"Unknown"`, provided no struct definition carries the sentinel
/// itself as its name.
pub proof fn lemma_unresolved_instance_yields_unknown(cat: StructSetView, parts: Seq<Seq<char>>)
    requires
        parts.len() > 0,
        find_by_value(cat.vars, parts[0]) is None,
        crate::catalog::find_def(cat.definitions, unknown_name()) is None,
    ensures
        resolve_path(cat, parts) == unknown_name(),
{
    lemma_resolve_from_missing_def(cat, unknown_name(), parts.drop_first());
}

/// Folding segments from a name that matches no struct definition leaves the
/// name unchanged.
pub proof fn lemma_resolve_from_missing_def(
    cat: StructSetView,
    cur: Seq<char>,
    segs: Seq<Seq<char>>,
)
    requires
        crate::catalog::find_def(cat.definitions, cur) is None,
    ensures
        resolve_from(cat, cur, segs) == cur,
    decreases segs.len(),
{
    if segs.len() > 0 {
        assert(resolve_step(cat, cur, segs[0]) == cur);
        lemma_resolve_from_missing_def(cat, cur, segs.drop_first());
    }
}

/// A segment that does not match any field of the current definition — or
/// whose current name matches no definition at all — leaves the current type
/// name unchanged; resolution goes on with the next segment.
pub proof fn lemma_unmatched_segment_keeps_name(
    cat: StructSetView,
    cur: Seq<char>,
    seg: Seq<char>,
)
    requires
        lookup_in_def(cat.definitions, cur, seg) is None,
    ensures
        resolve_step(cat, cur, seg) == cur,
{
}

/// A two-level path `a.b.c` resolves by chaining single-level lookups: `a`
/// names an instance whose struct has a field `b`, the type of `b` names a
/// struct with a field `c`, and the result is the type of `c`.
pub proof fn lemma_multi_level_resolution(
    cat: StructSetView,
    a: Seq<char>,
    b: Seq<char>,
    c: Seq<char>,
    ta: Seq<char>,
    tb: Seq<char>,
    tc: Seq<char>,
)
    requires
        (match find_by_value(cat.vars, a) {
            Some(f) => f.name == ta,
            None => false,
        }),
        lookup_in_def(cat.definitions, ta, b) == Some(tb),
        lookup_in_def(cat.definitions, tb, c) == Some(tc),
    ensures
        resolve_path(cat, seq![a, b, c]) == tc,
{
    let parts = seq![a, b, c];
    assert(parts.drop_first() =~= seq![b, c]);
    assert(seq![b, c].drop_first() =~= seq![c]);
    assert(seq![c].drop_first() =~= Seq::<Seq<char>>::empty());
    assert(parts[0] == a);
    assert(resolve_step(cat, ta, b) == tb);
    assert(resolve_step(cat, tb, c) == tc);
    assert(resolve_path(cat, parts) == resolve_from(cat, ta, seq![b, c]));
    assert(resolve_from(cat, ta, seq![b, c]) == resolve_from(cat, tb, seq![c]));
    assert(resolve_from(cat, tb, seq![c]) == resolve_from(cat, tc, Seq::<Seq<char>>::empty()));
    assert(resolve_from(cat, tc, Seq::<Seq<char>>::empty()) == tc);
}

/// One descriptor record for the code generator: a display name paired with
/// the terminal type name resolved for the same access path.
#[derive(Clone, Debug, PartialEq, Eq)]
pub struct DbInfoUnit {
    name: String,
    resolved_type: String,
}

/// Mathematical image of a `DbInfoUnit`.
#[verifier::ext_equal]
pub ghost struct DbInfoUnitView {
    pub name: Seq<char>,
    pub resolved_type: Seq<char>,
}

impl View for DbInfoUnit {
    type V = DbInfoUnitView;

    closed spec fn view(&self) -> DbInfoUnitView {
        DbInfoUnitView { name: self.name@, resolved_type: self.resolved_type@ }
    }
}

impl DbInfoUnit {
    /// The record's display name.
    pub fn name(&self) -> (r: &str)
        ensures
            r@ == self@.name,
    {
        self.name.as_str()
    }

    /// The record's resolved type name.
    pub fn resolved_type(&self) -> (r: &str)
        ensures
            r@ == self@.resolved_type,
    {
        self.resolved_type.as_str()
    }
}

/// Zips display names and resolved type names pairwise, by position, into
/// descriptor records; a length mismatch truncates to the shorter sequence.
pub fn db_info(db_data: Vec<String>, resolved_type: Vec<String>) -> (r: Vec<DbInfoUnit>)
    ensures
        r@.len() == vstd::math::min(db_data@.len() as int, resolved_type@.len() as int),
        forall|i: int|
            0 <= i < r@.len() ==> r@[i]@.name == db_data@[i]@ && r@[i]@.resolved_type
                == resolved_type@[i]@,
{
    let mut out: Vec<DbInfoUnit> = Vec::new();
    let n = if db_data.len() < resolved_type.len() {
        db_data.len()
    } else {
        resolved_type.len()
    };
    let mut i: usize = 0;
    while i < n
        invariant
            0 <= i <= n,
            n == vstd::math::min(db_data@.len() as int, resolved_type@.len() as int),
            out@.len() == i,
            forall|j: int|
                0 <= j < i ==> out@[j]@.name == db_data@[j]@ && out@[j]@.resolved_type
                    == resolved_type@[j]@,
        decreases n - i,
    {
        out.push(
            DbInfoUnit { name: db_data[i].clone(), resolved_type: resolved_type[i].clone() },
        );
        i += 1;
    }
    out
}

} // verus!
