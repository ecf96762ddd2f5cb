//! Access paths: the ordered token chains extracted from usage expressions,
//! and the display names derived from them.

use vstd::prelude::*;
use crate::text::{lower_digit_end, strings_view};

verus! {

/// `t` with its longest leading run of lowercase letters and digits removed.
pub open spec fn stripped(t: Seq<char>) -> Seq<char> {
    t.subrange(lower_digit_end(t, 0), t.len() as int)
}

/// The display name of one access path: the concatenation of its segments,
/// each with its leading lowercase-and-digit run removed.
pub open spec fn part_display(parts: Seq<Seq<char>>) -> Seq<char>
    decreases parts.len(),
{
    if parts.len() == 0 {
        Seq::empty()
    } else {
        stripped(parts[0]) + part_display(parts.drop_first())
    }
}

/// The views of a sequence of links, in order.
pub open spec fn links_view(v: Seq<DbLink>) -> Seq<Seq<Seq<char>>> {
    Seq::new(v.len(), |i: int| v[i]@)
}

/// `input` with its longest leading run of lowercase letters and digits
/// removed.
pub fn remove_leading_lowercase_and_digits(input: &str) -> (r: String)
    ensures
        r@ == stripped(input@),
{
    let n = input.unicode_len();
    let e = crate::text::exec_lower_digit_end(input, 0);
    crate::text::exec_substring(input, e, n)
}

/// One access path: the ordered segments of one dotted usage expression.
#[derive(Clone, Debug, PartialEq, Eq)]
pub struct DbLink {
    parts: Vec<String>,
}

impl View for DbLink {
    type V = Seq<Seq<char>>;

    closed spec fn view(&self) -> Seq<Seq<char>> {
        strings_view(self.parts@)
    }
}

impl DbLink {
    /// An empty path.
    pub fn new() -> (r: DbLink)
        ensures
            r@ == Seq::<Seq<char>>::empty(),
    {
        let r = DbLink { parts: Vec::new() };
        proof {
            assert(r@ =~= Seq::<Seq<char>>::empty());
        }
        r
    }

    /// Appends one segment, keeping appearance order.
    pub fn add_part(&mut self, part: String)
        ensures
            final (self)@ == old(self)@.push(part@),
    {
        self.parts.push(part);
        proof {
            assert(final (self)@ =~= old(self)@.push(part@));
        }
    }

    /// A copy of the segments, in order.
    pub fn get_parts(&self) -> (r: Vec<String>)
        ensures
            strings_view(r@) == self@,
    {
        let mut out: Vec<String> = Vec::new();
        let mut i: usize = 0;
        while i < self.parts.len()
            invariant
                0 <= i <= self.parts.len(),
                out@.len() == i,
                forall|j: int| 0 <= j < i ==> out@[j]@ == self.parts@[j]@,
            decreases self.parts.len() - i,
        {
            out.push(self.parts[i].clone());
            i += 1;
        }
        proof {
            assert(strings_view(out@) =~= self@);
        }
        out
    }

    /// Borrows the segments, in order.
    pub fn parts(&self) -> (r: &Vec<String>)
        ensures
            strings_view(r@) == self@,
    {
        &self.parts
    }
}

/// The ordered collection of all access paths extracted from a usage file.
#[derive(Clone, Debug, PartialEq, Eq)]
pub struct DbData {
    links: Vec<DbLink>,
}

impl View for DbData {
    type V = Seq<Seq<Seq<char>>>;

    closed spec fn view(&self) -> Seq<Seq<Seq<char>>> {
        links_view(self.links@)
    }
}

impl DbData {
    /// An empty collection of paths.
    pub fn new() -> (r: DbData)
        ensures
            r@ == Seq::<Seq<Seq<char>>>::empty(),
    {
        let r = DbData { links: Vec::new() };
        proof {
            assert(r@ =~= Seq::<Seq<Seq<char>>>::empty());
        }
        r
    }

    /// Appends one path, keeping appearance order.
    pub fn add_link(&mut self, link: DbLink)
        ensures
            final (self)@ == old(self)@.push(link@),
    {
        self.links.push(link);
        proof {
            assert(final (self)@ =~= old(self)@.push(link@));
        }
    }

    /// Borrows the paths, in order.
    pub fn links(&self) -> (r: &Vec<DbLink>)
        ensures
            links_view(r@) == self@,
    {
        &self.links
    }

    /// The display name of every path, in order: each path's segments are
    /// stripped of their leading lowercase-and-digit runs and concatenated.
    pub fn get_part_name(&self) -> (r: Vec<String>)
        ensures
            strings_view(r@) == Seq::new(self@.len(), |i: int| part_display(self@[i])),
    {
        let mut out: Vec<String> = Vec::new();
        let mut li: usize = 0;
        while li < self.links.len()
            invariant
                0 <= li <= self.links.len(),
                out@.len() == li,
                forall|j: int| 0 <= j < li ==> out@[j]@ == part_display(links_view(self.links@)[j]),
            decreases self.links.len() - li,
        {
            let link = &self.links[li];
            let ghost lv = link@;
            let mut name = String::new();
            let mut pi: usize = 0;
            proof {
                assert(lv.skip(0) =~= lv);
                assert(name@ + part_display(lv) =~= part_display(lv));
            }
            while pi < link.parts.len()
                invariant
                    0 <= pi <= link.parts.len(),
                    lv == link@,
                    lv.len() == link.parts.len(),
                    forall|j: int| 0 <= j < lv.len() ==> lv[j] == link.parts@[j]@,
                    part_display(lv) == name@ + part_display(lv.skip(pi as int)),
                decreases link.parts.len() - pi,
            {
                let piece = remove_leading_lowercase_and_digits(link.parts[pi].as_str());
                proof {
                    let rest = lv.skip(pi as int);
                    assert(rest[0] == lv[pi as int]);
                    assert(rest.drop_first() =~= lv.skip(pi as int + 1));
                    assert(name@ + (stripped(lv[pi as int]) + part_display(lv.skip(pi as int + 1)))
                        =~= (name@ + stripped(lv[pi as int])) + part_display(
                        lv.skip(pi as int + 1),
                    ));
                }
                name.append(piece.as_str());
                pi += 1;
            }
            proof {
                assert(lv.skip(pi as int) =~= Seq::<Seq<char>>::empty());
                assert(name@ + part_display(lv.skip(pi as int)) =~= name@);
                assert(links_view(self.links@)[li as int] == lv);
            }
            out.push(name);
            li += 1;
        }
        proof {
            assert(strings_view(out@) =~= Seq::new(self@.len(), |i: int| part_display(self@[i])));
        }
        out
    }
}

} // verus!
